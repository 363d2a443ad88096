//! The clipboard of the companion display: text that the game copies is offered
//! there, and requests for it are answered.

use vstd::prelude::*;
use vstd::string::*;

verus! {

/// The clipboard: text that waits to be offered, whether the owner runs, and
/// the text that is offered.
pub struct Clipboard {
    pub pending: Option<String>,
    pub started: bool,
    pub current: Option<String>,
}

#[verifier::ext_equal]
pub struct ClipboardView {
    pub pending: Option<Seq<char>>,
    pub started: bool,
    pub current: Option<Seq<char>>,
}

pub open spec fn opt_view(s: Option<String>) -> Option<Seq<char>> {
    match s {
        Some(t) => Some(t@),
        None => None,
    }
}

impl View for Clipboard {
    type V = ClipboardView;

    open spec fn view(&self) -> ClipboardView {
        ClipboardView {
            pending: opt_view(self.pending),
            started: self.started,
            current: opt_view(self.current),
        }
    }
}

/// A clipboard in which nothing was copied yet.
pub open spec fn no_copy() -> ClipboardView {
    ClipboardView { pending: None, started: false, current: None }
}

/// The clipboard after text was copied.
pub open spec fn copied(c: ClipboardView, text: Seq<char>, display: Option<u32>) -> ClipboardView {
    ClipboardView { pending: Some(text), started: c.started || display is Some, ..c }
}

/// The clipboard after the waiting text was offered.
pub open spec fn published(c: ClipboardView) -> ClipboardView {
    ClipboardView {
        pending: None,
        current: if c.pending is Some {
            c.pending
        } else {
            c.current
        },
        ..c
    }
}

/// The clipboard after another client claimed the selection.
pub open spec fn lost(c: ClipboardView) -> ClipboardView {
    ClipboardView { current: None, ..c }
}

/// The display on which the owner is to be started when text is copied.
pub open spec fn owner_start(c: ClipboardView, display: Option<u32>) -> Option<u32> {
    if c.started {
        None
    } else {
        display
    }
}

impl Clipboard {
    /// Nothing was copied yet.
    pub fn new() -> (r: Clipboard)
        ensures
            r@ == no_copy(),
    {
        Clipboard { pending: None, started: false, current: None }
    }
}

/// Takes over text that the game copied. `display` is the companion display, if
/// it is up; the result is the display on which the owner is to be started.
pub fn set_clipboard(c: &mut Clipboard, text: String, display: Option<u32>) -> (r: Option<u32>)
    ensures
        final(c)@ == copied(old(c)@, text@, display),
        r == owner_start(old(c)@, display),
{
    c.pending = Some(text);
    ensure_started(c, display)
}

/// Starts the owner once, as soon as the display is up.
fn ensure_started(c: &mut Clipboard, display: Option<u32>) -> (r: Option<u32>)
    ensures
        final(c)@ == (ClipboardView { started: old(c)@.started || display is Some, ..old(c)@ }),
        r == owner_start(old(c)@, display),
{
    if c.started {
        return None;
    }
    match display {
        Some(d) => {
            c.started = true;
            Some(d)
        },
        None => None,
    }
}

/// Offers the text that waits. The result says that the selections are to be
/// claimed.
pub fn publish(c: &mut Clipboard) -> (claim: bool)
    ensures
        claim == old(c)@.pending is Some,
        final(c)@ == published(old(c)@),
{
    match c.pending.take() {
        Some(t) => {
            c.current = Some(t);
            true
        },
        None => false,
    }
}

/// Another client claimed the selection: nothing is offered any more.
pub fn selection_lost(c: &mut Clipboard)
    ensures
        final(c)@ == lost(old(c)@),
{
    c.current = None;
}

/// The numbers of the targets that can be asked for; 0 stands for an unknown
/// one.
#[derive(Clone, Copy, Debug, PartialEq, Eq, Structural)]
pub struct TargetAtoms {
    pub utf8: u32,
    pub string: u32,
    pub targets: u32,
}

/// The answer to a request.
#[derive(Clone, Copy, Debug, PartialEq, Eq, Structural)]
pub enum Answer {
    /// Nothing is given.
    Refuse,
    /// The list of targets is written to this property.
    Targets { property: u32 },
    /// The text is written to this property as this target.
    Text { property: u32, target: u32 },
}

/// The property that a request names; an old client names none and gets the
/// answer on the target.
pub open spec fn reply_property(target: u32, property: u32) -> u32 {
    if property == 0 {
        target
    } else {
        property
    }
}

/// The answer to a request for `target`.
pub open spec fn answer_to(offered: bool, target: u32, property: u32, a: TargetAtoms) -> Answer {
    let p = reply_property(target, property);
    if !offered {
        Answer::Refuse
    } else if a.targets != 0 && target == a.targets {
        Answer::Targets { property: p }
    } else if (a.utf8 != 0 && target == a.utf8) || target == a.string {
        Answer::Text { property: p, target }
    } else {
        Answer::Refuse
    }
}

/// Decides on a request.
pub fn serve_request(c: &Clipboard, target: u32, property: u32, atoms: TargetAtoms) -> (r: Answer)
    ensures
        r == answer_to(c@.current is Some, target, property, atoms),
{
    let p: u32 = if property == 0 {
        target
    } else {
        property
    };
    if c.current.is_none() {
        return Answer::Refuse;
    }
    if atoms.targets != 0 && target == atoms.targets {
        return Answer::Targets { property: p };
    }
    if (atoms.utf8 != 0 && target == atoms.utf8) || target == atoms.string {
        return Answer::Text { property: p, target };
    }
    Answer::Refuse
}

/// The list that answers a request for the targets.
pub fn target_list(atoms: TargetAtoms) -> (r: [u32; 3])
    ensures
        r@ == seq![atoms.targets, atoms.utf8, atoms.string],
{
    let r: [u32; 3] = [atoms.targets, atoms.utf8, atoms.string];
    assert(r@ =~= seq![atoms.targets, atoms.utf8, atoms.string]);
    r
}

/// The property to report to the client, `written` saying whether the answer
/// was written; 0 refuses.
pub fn reported_property(answer: Answer, written: bool) -> (r: u32)
    ensures
        r == match answer {
            Answer::Refuse => 0,
            Answer::Targets { property } => if written {
                property
            } else {
                0
            },
            Answer::Text { property, .. } => if written {
                property
            } else {
                0
            },
        },
{
    if !written {
        return 0;
    }
    match answer {
        Answer::Refuse => 0,
        Answer::Targets { property } => property,
        Answer::Text { property, .. } => property,
    }
}

// ---------------------------------------------------------------------------
// Laws
// ---------------------------------------------------------------------------

/// What was copied last is what a request for text is answered with, whatever
/// was copied or offered before, and offering again changes nothing.
pub proof fn law_last_copy_is_served(
    c: ClipboardView,
    first: Seq<char>,
    text: Seq<char>,
    display: Option<u32>,
    property: u32,
    atoms: TargetAtoms,
)
    requires
        atoms.utf8 != 0,
        atoms.utf8 != atoms.targets,
    ensures
        ({
            let n = published(copied(copied(c, first, display), text, display));
            &&& n.current == Some(text)
            &&& published(n) == n
            &&& answer_to(n.current is Some, atoms.utf8, property, atoms) == (Answer::Text {
                property: reply_property(atoms.utf8, property),
                target: atoms.utf8,
            })
        }),
{
}

/// Nothing is answered before something was copied and offered, and after the
/// selection was lost, until the next copy is offered.
pub proof fn law_nothing_is_served_unasked(
    c: ClipboardView,
    text: Seq<char>,
    display: Option<u32>,
    target: u32,
    property: u32,
    atoms: TargetAtoms,
)
    ensures
        answer_to(no_copy().current is Some, target, property, atoms) == Answer::Refuse,
        answer_to(copied(no_copy(), text, display).current is Some, target, property, atoms)
            == Answer::Refuse,
        answer_to(lost(c).current is Some, target, property, atoms) == Answer::Refuse,
        answer_to(copied(lost(c), text, display).current is Some, target, property, atoms)
            == Answer::Refuse,
{
}

/// The owner is started by the first copy that finds the display, and never
/// again, whatever is copied, offered or lost after that.
pub proof fn law_owner_starts_once(
    c: ClipboardView,
    text: Seq<char>,
    display: u32,
    later: Seq<char>,
    other: Option<u32>,
)
    ensures
        owner_start(no_copy(), Some(display)) == Some(display),
        owner_start(copied(no_copy(), text, None), Some(display)) == Some(display),
        ({
            let n = copied(c, text, Some(display));
            &&& owner_start(n, other) is None
            &&& owner_start(copied(n, later, other), other) is None
            &&& owner_start(published(n), other) is None
            &&& owner_start(lost(n), other) is None
        }),
{
}

/// What others may ask of a copied text: what it can be had as, and the text in
/// either encoding; the answer goes where they ask for it, or to the target itself
/// where they name no place. Anything else is refused.
pub proof fn law_requests_are_answered(target: u32, property: u32, a: TargetAtoms)
    requires
        a.targets != 0,
        a.utf8 != 0,
        a.utf8 != a.targets,
        a.string != a.targets,
        property != 0,
    ensures
        answer_to(true, a.targets, property, a) == (Answer::Targets { property }),
        answer_to(true, a.utf8, property, a) == (Answer::Text { property, target: a.utf8 }),
        answer_to(true, a.string, property, a) == (Answer::Text { property, target: a.string }),
        answer_to(true, a.utf8, 0, a) == (Answer::Text { property: a.utf8, target: a.utf8 }),
        target != a.targets && target != a.utf8 && target != a.string ==> answer_to(
            true,
            target,
            property,
            a,
        ) is Refuse,
        answer_to(false, target, property, a) is Refuse,
{
}

/// The list of targets names all three, and the place of the answer is reported
/// exactly where something was written there.
pub proof fn law_answers_are_reported(
    atoms: TargetAtoms,
    list: [u32; 3],
    property: u32,
    target: u32,
    written: bool,
    text: u32,
    refused: u32,
)
    requires
        call_ensures(target_list, (atoms,), list),
        call_ensures(reported_property, (Answer::Text { property, target }, written), text),
        call_ensures(reported_property, (Answer::Refuse, written), refused),
    ensures
        list@.contains(atoms.targets) && list@.contains(atoms.utf8) && list@.contains(
            atoms.string,
        ),
        written ==> text == property,
        !written ==> text == 0,
        refused == 0,
{
    assert(list@[0] == atoms.targets && list@[1] == atoms.utf8 && list@[2] == atoms.string);
}

} // verus!
