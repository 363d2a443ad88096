//! The coarse state of the game from its window title.

use crate::text::{has_text, same_text};
use vstd::prelude::*;
use vstd::string::*;

verus! {

use crate::text::{contains, lower};
use vstd::utf8::is_ascii_chars;

/// A text in lower case, by the rules of Unicode.
pub uninterp spec fn lowercase(s: Seq<char>) -> Seq<char>;

/// `str::to_lowercase`. The result depends on the text alone; on a text of
/// ASCII characters, capitals become small letters and the rest stays.
#[verifier::external_body]
pub(crate) fn to_lowercase(s: &str) -> (r: String)
    ensures
        r@ == lowercase(s@),
        is_ascii_chars(s@) ==> r@ == lower(s@),
{
    s.to_lowercase()
}

/// The state that a title in lower case means.
pub open spec fn lower_title_state(title: Seq<char>) -> Seq<char> {
    if contains(title, "singleplayer"@) || contains(title, "multiplayer"@) {
        "ingame"@
    } else {
        "menu"@
    }
}

/// The state that a title in lower case means.
pub fn state_of_lower_title(title: &str) -> (r: &'static str)
    ensures
        r@ == lower_title_state(title@),
{
    if has_text(title, "singleplayer") || has_text(title, "multiplayer") {
        "ingame"
    } else {
        "menu"
    }
}

/// The state that a window title means; an empty title means none.
pub fn title_to_state(title: &str) -> (r: &'static str)
    ensures
        r@ == if title@.len() == 0 {
            Seq::<char>::empty()
        } else {
            lower_title_state(lowercase(title@))
        },
        title@.len() > 0 && is_ascii_chars(title@) ==> r@ == lower_title_state(lower(title@)),
{
    if title.is_empty() {
        proof {
            reveal_strlit("");
            assert(""@ =~= Seq::<char>::empty());
        }
        return "";
    }
    state_of_lower_title(to_lowercase(title).as_str())
}

/// The state came from a title, and not from a better source.
pub open spec fn title_derived(state: Seq<char>) -> bool {
    state.len() == 0 || state == "menu"@ || state == "ingame"@
}

/// The state to take over when the title means `state`: only where the present
/// one came from a title too, and differs.
pub fn title_update(current: &str, state: &'static str) -> (r: Option<&'static str>)
    ensures
        r is Some <==> title_derived(current@) && current@ != state@,
        r matches Some(s) ==> s@ == state@,
{
    let derived = current.is_empty() || same_text(current, "menu") || same_text(current, "ingame");
    if derived && !same_text(current, state) {
        Some(state)
    } else {
        None
    }
}

/// A state from a better source is never overwritten by a title.
pub proof fn law_title_never_overrides(current: Seq<char>)
    requires
        crate::state_watcher::is_state(current),
    ensures
        !title_derived(current),
{
    reveal_strlit("menu");
    reveal_strlit("ingame");
    reveal_strlit("wall");
    reveal_strlit("title");
    reveal_strlit("waiting");
    reveal_strlit("generating");
    reveal_strlit("inworld,cursor_grabbed");
    reveal_strlit("inworld,cursor_free");
    assert("menu"@[0] != "wall"@[0]);
}

/// A title that names the kind of game means that the player is in it, wherever
/// the words stand; any other title means a menu.
pub proof fn law_title_tells_the_game(a: Seq<char>, b: Seq<char>, title: Seq<char>)
    ensures
        lower_title_state(a + "singleplayer"@ + b) == "ingame"@,
        lower_title_state(a + "multiplayer"@ + b) == "ingame"@,
        !contains(title, "singleplayer"@) && !contains(title, "multiplayer"@)
            ==> lower_title_state(title) == "menu"@,
{
    crate::text::law_contains(a, "singleplayer"@, b);
    crate::text::law_contains(a, "multiplayer"@, b);
}

/// A title changes a state that came from a title, or none, and only where it
/// says something new.
pub proof fn law_title_updates(current: &str, state: &'static str, r: Option<&'static str>)
    requires
        call_ensures(title_update, (current, state), r),
    ensures
        current@ == "menu"@ && state@ == "ingame"@ ==> r is Some && r->0@ == "ingame"@,
        current@ == "ingame"@ && state@ == "menu"@ ==> r is Some && r->0@ == "menu"@,
        current@.len() == 0 && state@.len() > 0 ==> r is Some && r->0@ == state@,
        current@ == state@ ==> r is None,
        current@ == "inworld,cursor_free"@ || current@ == "wall"@ || current@ == "title"@
            ==> r is None,
{
    reveal_strlit("menu");
    reveal_strlit("ingame");
    reveal_strlit("wall");
    reveal_strlit("title");
    reveal_strlit("inworld,cursor_free");
    assert("menu"@.len() == 4 && "ingame"@.len() == 6 && "wall"@.len() == 4);
    assert("title"@.len() == 5 && "inworld,cursor_free"@.len() == 19);
    assert("menu"@[0] != "wall"@[0]);
}

} // verus!
