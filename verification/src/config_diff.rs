//! The changes between two configurations, leaf by leaf.

use crate::json::{parse_json, Json};
use crate::text::{push_nat, same_text, to_chars};
use vstd::prelude::*;
use vstd::string::*;

verus! {

use crate::json::{json_text, JsonNumber};
use crate::text::{decimal_nat, texts};

// ---------------------------------------------------------------------------
// Equality
// ---------------------------------------------------------------------------

/// Two numbers are the same: integers of one kind with one value, or doubles
/// that are equal, where the two zeros are.
pub open spec fn same_number(a: JsonNumber, b: JsonNumber) -> bool {
    &&& a.unsigned == b.unsigned
    &&& a.signed == b.signed
    &&& (a.unsigned is Some || a.signed is Some || a.bits == b.bits || (zero_bits(a.bits)
        && zero_bits(b.bits)))
}

/// The bits are those of a zero of either sign.
pub open spec fn zero_bits(b: u64) -> bool {
    b == 0 || b == 0x8000_0000_0000_0000
}

/// Two values are the same.
pub open spec fn same_value(a: Json, b: Json) -> bool
    decreases a,
{
    match (a, b) {
        (Json::Null, Json::Null) => true,
        (Json::Bool(x), Json::Bool(y)) => x == y,
        (Json::Number(x), Json::Number(y)) => same_number(x, y),
        (Json::Str(x), Json::Str(y)) => x@ == y@,
        (Json::Array(x, _), Json::Array(y, _)) => x@.len() == y@.len() && forall|i: int|
            0 <= i < x@.len() ==> same_value(#[trigger] x@[i], y@[i]),
        (Json::Object(x, _), Json::Object(y, _)) => x@.len() == y@.len() && forall|i: int|
            0 <= i < x@.len() ==> (#[trigger] x@[i]).0@ == y@[i].0@ && same_value(
                x@[i].1,
                y@[i].1,
            ),
        _ => false,
    }
}

fn numbers_agree(a: &JsonNumber, b: &JsonNumber) -> (r: bool)
    ensures
        r == same_number(*a, *b),
{
    let unsigned = match (a.unsigned, b.unsigned) {
        (Some(x), Some(y)) => x == y,
        (None, None) => true,
        _ => false,
    };
    let signed = match (a.signed, b.signed) {
        (Some(x), Some(y)) => x == y,
        (None, None) => true,
        _ => false,
    };
    let zeros = (a.bits == 0 || a.bits == 0x8000_0000_0000_0000) && (b.bits == 0 || b.bits
        == 0x8000_0000_0000_0000);
    unsigned && signed && (a.unsigned.is_some() || a.signed.is_some() || a.bits == b.bits || zeros)
}

/// Whether two values are the same.
pub fn values_agree(a: &Json, b: &Json) -> (r: bool)
    ensures
        r == same_value(*a, *b),
    decreases a,
{
    match (a, b) {
        (Json::Null, Json::Null) => true,
        (Json::Bool(x), Json::Bool(y)) => *x == *y,
        (Json::Number(x), Json::Number(y)) => numbers_agree(x, y),
        (Json::Str(x), Json::Str(y)) => same_text(x.as_str(), y.as_str()),
        (Json::Array(x, _), Json::Array(y, _)) => {
            if x.len() != y.len() {
                return false;
            }
            let mut i: usize = 0;
            while i < x.len()
                invariant
                    i <= x@.len(),
                    x@.len() == y@.len(),
                    a matches Json::Array(p, _) && p == x,
                    b matches Json::Array(q, _) && q == y,
                    forall|k: int| 0 <= k < i ==> same_value(#[trigger] x@[k], y@[k]),
                decreases x.len() - i,
            {
                if !values_agree(&x[i], &y[i]) {
                    assert(!same_value(x@[i as int], y@[i as int]));
                    return false;
                }
                i += 1;
            }
            true
        },
        (Json::Object(x, _), Json::Object(y, _)) => {
            if x.len() != y.len() {
                return false;
            }
            let mut i: usize = 0;
            while i < x.len()
                invariant
                    i <= x@.len(),
                    x@.len() == y@.len(),
                    a matches Json::Object(p, _) && p == x,
                    b matches Json::Object(q, _) && q == y,
                    forall|k: int|
                        0 <= k < i ==> (#[trigger] x@[k]).0@ == y@[k].0@ && same_value(
                            x@[k].1,
                            y@[k].1,
                        ),
                decreases x.len() - i,
            {
                if !same_text(x[i].0.as_str(), y[i].0.as_str()) || !values_agree(
                    &x[i].1,
                    &y[i].1,
                ) {
                    assert(!(x@[i as int].0@ == y@[i as int].0@ && same_value(
                        x@[i as int].1,
                        y@[i as int].1,
                    )));
                    return false;
                }
                i += 1;
            }
            true
        },
        _ => false,
    }
}

// ---------------------------------------------------------------------------
// Keys in order
// ---------------------------------------------------------------------------

/// `a` stands before `b` in the order of their characters.
pub open spec fn text_less(a: Seq<char>, b: Seq<char>) -> bool
    decreases a.len(),
{
    if b.len() == 0 {
        false
    } else if a.len() == 0 {
        true
    } else if a[0] != b[0] {
        a[0] < b[0]
    } else {
        text_less(a.subrange(1, a.len() as int), b.subrange(1, b.len() as int))
    }
}

/// Whether `a` stands before `b` in the order of their characters.
pub fn precedes(a: &str, b: &str) -> (r: bool)
    ensures
        r == text_less(a@, b@),
{
    let x = to_chars(a);
    let y = to_chars(b);
    let mut i: usize = 0;
    assert(x@.subrange(0, x@.len() as int) == x@);
    assert(y@.subrange(0, y@.len() as int) == y@);
    while i < x.len() && i < y.len()
        invariant
            i <= x@.len(),
            i <= y@.len(),
            x@ == a@,
            y@ == b@,
            text_less(a@, b@) == text_less(
                x@.subrange(i as int, x@.len() as int),
                y@.subrange(i as int, y@.len() as int),
            ),
        decreases x.len() - i,
    {
        let ghost p = x@.subrange(i as int, x@.len() as int);
        let ghost q = y@.subrange(i as int, y@.len() as int);
        if x[i] != y[i] {
            return x[i] < y[i];
        }
        assert(p.subrange(1, p.len() as int) == x@.subrange(i + 1, x@.len() as int));
        assert(q.subrange(1, q.len() as int) == y@.subrange(i + 1, y@.len() as int));
        i += 1;
    }
    i < y.len()
}

/// The first place from `i` on whose key does not stand before `k`.
pub open spec fn key_place(keys: Seq<Seq<char>>, k: Seq<char>, i: int) -> int
    decreases keys.len() - i,
{
    if 0 <= i < keys.len() && text_less(keys[i], k) {
        key_place(keys, k, i + 1)
    } else {
        i
    }
}

/// The keys with `k` at its place.
pub open spec fn with_key(keys: Seq<Seq<char>>, k: Seq<char>) -> Seq<Seq<char>> {
    let p = key_place(keys, k, 0);
    if p < keys.len() && keys[p] == k {
        keys
    } else {
        keys.insert(p, k)
    }
}

/// `keys` with those of the first `n` entries at their places.
pub open spec fn with_entries(keys: Seq<Seq<char>>, v: Seq<(String, Json)>, n: nat) -> Seq<
    Seq<char>,
>
    decreases n,
{
    if n == 0 {
        keys
    } else {
        with_key(with_entries(keys, v, (n - 1) as nat), v[n - 1].0@)
    }
}

/// The keys of two objects, in order, each once.
pub open spec fn all_keys(x: Seq<(String, Json)>, y: Seq<(String, Json)>) -> Seq<Seq<char>> {
    with_entries(with_entries(Seq::empty(), x, x.len()), y, y.len())
}

fn insert_key(keys: &mut Vec<String>, k: &str)
    ensures
        texts(final(keys)@) == with_key(texts(old(keys)@), k@),
{
    let ghost t = texts(keys@);
    let mut p: usize = 0;
    while p < keys.len() && precedes(keys[p].as_str(), k)
        invariant
            p <= keys@.len(),
            t == texts(keys@),
            keys@ == old(keys)@,
            key_place(t, k@, 0) == key_place(t, k@, p as int),
        decreases keys.len() - p,
    {
        assert(t[p as int] == keys@[p as int]@);
        p += 1;
    }
    assert(p < keys@.len() ==> t[p as int] == keys@[p as int]@);
    if p < keys.len() && same_text(keys[p].as_str(), k) {
        return;
    }
    let s = k.to_owned();
    keys.insert(p, s);
    assert(texts(keys@) == t.insert(p as int, k@));
}

fn insert_entries(keys: &mut Vec<String>, v: &Vec<(String, Json)>)
    ensures
        texts(final(keys)@) == with_entries(texts(old(keys)@), v@, v@.len()),
{
    let mut i: usize = 0;
    while i < v.len()
        invariant
            i <= v@.len(),
            texts(keys@) == with_entries(texts(old(keys)@), v@, i as nat),
        decreases v.len() - i,
    {
        insert_key(keys, v[i].0.as_str());
        i += 1;
    }
}

/// The first entry from `i` on whose key is `k`.
pub open spec fn key_index(v: Seq<(String, Json)>, k: Seq<char>, i: int) -> Option<int>
    decreases v.len() - i,
{
    if i < 0 || i >= v.len() {
        None
    } else if v[i].0@ == k {
        Some(i)
    } else {
        key_index(v, k, i + 1)
    }
}

fn find_key(v: &Vec<(String, Json)>, k: &str) -> (r: Option<usize>)
    ensures
        r is Some <==> key_index(v@, k@, 0) is Some,
        r matches Some(i) ==> i as int == key_index(v@, k@, 0)->0 && i < v@.len(),
{
    let mut i: usize = 0;
    while i < v.len()
        invariant
            i <= v@.len(),
            key_index(v@, k@, 0) == key_index(v@, k@, i as int),
        decreases v.len() - i,
    {
        if same_text(v[i].0.as_str(), k) {
            return Some(i);
        }
        i += 1;
    }
    None
}

// ---------------------------------------------------------------------------
// Changes
// ---------------------------------------------------------------------------

/// One changed setting: where it stands, and its texts before and after.
#[derive(Clone, Debug, PartialEq)]
pub struct Change {
    pub path: String,
    pub before: String,
    pub after: String,
}

#[verifier::ext_equal]
pub struct ChangeView {
    pub path: Seq<char>,
    pub before: Seq<char>,
    pub after: Seq<char>,
}

impl View for Change {
    type V = ChangeView;

    open spec fn view(&self) -> ChangeView {
        ChangeView { path: self.path@, before: self.before@, after: self.after@ }
    }
}

pub open spec fn change_views(v: Seq<Change>) -> Seq<ChangeView> {
    v.map_values(|c: Change| c@)
}

/// How a value is shown: a string as it is, any other value as JSON.
pub open spec fn leaf_text(j: Json) -> Seq<char> {
    match j {
        Json::Null => "null"@,
        Json::Bool(b) => if b {
            "true"@
        } else {
            "false"@
        },
        Json::Number(n) => n.text@,
        Json::Str(s) => s@,
        Json::Array(_, t) => t@,
        Json::Object(_, t) => t@,
    }
}

pub fn leaf_str(j: &Json) -> (r: String)
    ensures
        r@ == leaf_text(*j),
{
    match j {
        Json::Null => "null".to_owned(),
        Json::Bool(b) => if *b {
            "true".to_owned()
        } else {
            "false".to_owned()
        },
        Json::Number(n) => n.text.clone(),
        Json::Str(s) => s.clone(),
        Json::Array(_, t) => t.clone(),
        Json::Object(_, t) => t.clone(),
    }
}

/// The path of a field.
pub open spec fn field_path(path: Seq<char>, k: Seq<char>) -> Seq<char> {
    if path.len() == 0 {
        k
    } else {
        path + "."@ + k
    }
}

/// The path of an array's element.
pub open spec fn item_path(path: Seq<char>, i: nat) -> Seq<char> {
    path + "["@ + decimal_nat(i) + "]"@
}

/// The change of a leaf, if it is one.
pub open spec fn leaf_change(path: Seq<char>, a: Json, b: Json) -> Seq<ChangeView> {
    if same_value(a, b) {
        Seq::empty()
    } else {
        seq![ChangeView { path, before: leaf_text(a), after: leaf_text(b) }]
    }
}

/// The changes from `a` to `b`. Objects are gone through key by key in the
/// order of the keys, arrays that differ element by element, and a missing part
/// counts as null; everything else is a leaf.
pub open spec fn changes(path: Seq<char>, a: Json, b: Json) -> Seq<ChangeView>
    decreases a, 1int, 0int,
{
    match (a, b) {
        (Json::Object(x, _), Json::Object(y, _)) => key_changes(path, a, b, all_keys(x@, y@), 0),
        (Json::Array(..), Json::Array(..)) => if same_value(a, b) {
            Seq::empty()
        } else {
            item_changes(path, a, b, 0)
        },
        _ => leaf_change(path, a, b),
    }
}

/// The changes at the keys from the `i`-th on.
pub open spec fn key_changes(
    path: Seq<char>,
    a: Json,
    b: Json,
    keys: Seq<Seq<char>>,
    i: int,
) -> Seq<ChangeView>
    decreases a, 0int, keys.len() - i,
{
    match (a, b) {
        (Json::Object(x, _), Json::Object(y, _)) => if 0 <= i < keys.len() {
            let p = field_path(path, keys[i]);
            let here = match (key_index(x@, keys[i], 0), key_index(y@, keys[i], 0)) {
                (Some(m), Some(n)) => if 0 <= m < x@.len() && 0 <= n < y@.len() {
                    changes(p, x@[m].1, y@[n].1)
                } else {
                    Seq::empty()
                },
                (Some(m), None) => leaf_change(p, x@[m].1, Json::Null),
                (None, Some(n)) => leaf_change(p, Json::Null, y@[n].1),
                (None, None) => Seq::empty(),
            };
            here + key_changes(path, a, b, keys, i + 1)
        } else {
            Seq::empty()
        },
        _ => Seq::empty(),
    }
}

/// The changes at the array elements from the `i`-th on.
pub open spec fn item_changes(path: Seq<char>, a: Json, b: Json, i: int) -> Seq<ChangeView>
    decreases
            a,
            0int,
            (match (a, b) {
                (Json::Array(x, _), Json::Array(y, _)) => x@.len() + y@.len() - i,
                _ => 0int,
            }),
{
    match (a, b) {
        (Json::Array(x, _), Json::Array(y, _)) => if 0 <= i < x@.len() || 0 <= i < y@.len() {
            let p = item_path(path, i as nat);
            let here = if i < x@.len() && i < y@.len() {
                changes(p, x@[i], y@[i])
            } else if i < x@.len() {
                leaf_change(p, x@[i], Json::Null)
            } else {
                leaf_change(p, Json::Null, y@[i])
            };
            here + item_changes(path, a, b, i + 1)
        } else {
            Seq::empty()
        },
        _ => Seq::empty(),
    }
}

fn push_leaf(path: &str, a: &Json, b: &Json, out: &mut Vec<Change>)
    ensures
        change_views(final(out)@) == change_views(old(out)@) + leaf_change(path@, *a, *b),
{
    if !values_agree(a, b) {
        let c = Change { path: path.to_owned(), before: leaf_str(a), after: leaf_str(b) };
        out.push(c);
        assert(change_views(out@) == change_views(old(out)@).push(c@));
        assert(c@ == (ChangeView { path: path@, before: leaf_text(*a), after: leaf_text(*b) }));
        assert(change_views(out@) == change_views(old(out)@) + leaf_change(path@, *a, *b));
    } else {
        assert(change_views(out@) == change_views(old(out)@) + leaf_change(path@, *a, *b));
    }
}

/// Appends the changes from `a` to `b`.
pub fn diff_value(path: &str, a: &Json, b: &Json, out: &mut Vec<Change>)
    ensures
        change_views(final(out)@) == change_views(old(out)@) + changes(path@, *a, *b),
    decreases a,
{
    let ghost start = change_views(out@);
    match (a, b) {
        (Json::Object(x, _), Json::Object(y, _)) => {
            let mut keys: Vec<String> = Vec::new();
            assert(texts(keys@) =~= Seq::<Seq<char>>::empty());
            insert_entries(&mut keys, x);
            insert_entries(&mut keys, y);
            let ghost all = all_keys(x@, y@);
            let ghost total = start + key_changes(path@, *a, *b, all, 0);
            let mut i: usize = 0;
            while i < keys.len()
                invariant
                    i <= keys@.len(),
                    texts(keys@) == all,
                    a matches Json::Object(p, _) && p == x,
                    b matches Json::Object(q, _) && q == y,
                    change_views(out@) + key_changes(path@, *a, *b, all, i as int) == total,
                decreases keys.len() - i,
            {
                let ghost now = change_views(out@);
                assert(all[i as int] == keys@[i as int]@);
                let k = keys[i].as_str();
                let mut p: String = path.to_owned();
                if !path.is_empty() {
                    p.append(".");
                }
                p.append(k);
                assert(p@ =~= field_path(path@, k@));
                let ghost here = match (key_index(x@, k@, 0), key_index(y@, k@, 0)) {
                    (Some(m), Some(n)) => changes(p@, x@[m].1, y@[n].1),
                    (Some(m), None) => leaf_change(p@, x@[m].1, Json::Null),
                    (None, Some(n)) => leaf_change(p@, Json::Null, y@[n].1),
                    (None, None) => Seq::empty(),
                };
                match (find_key(x, k), find_key(y, k)) {
                    (Some(m), Some(n)) => diff_value(p.as_str(), &x[m].1, &y[n].1, out),
                    (Some(m), None) => push_leaf(p.as_str(), &x[m].1, &Json::Null, out),
                    (None, Some(n)) => push_leaf(p.as_str(), &Json::Null, &y[n].1, out),
                    (None, None) => {},
                }
                proof {
                    assert(change_views(out@) == now + here);
                    let rest = key_changes(path@, *a, *b, all, i + 1);
                    assert(key_changes(path@, *a, *b, all, i as int) == here + rest);
                    assert(now + (here + rest) == (now + here) + rest);
                }
                i += 1;
            }
            assert(key_changes(path@, *a, *b, all, i as int) == Seq::<ChangeView>::empty());
            assert(change_views(out@) + Seq::<ChangeView>::empty() == change_views(out@));
        },
        (Json::Array(x, _), Json::Array(y, _)) => {
            if values_agree(a, b) {
                assert(start + Seq::<ChangeView>::empty() == start);
                return;
            }
            let ghost total = start + item_changes(path@, *a, *b, 0);
            let mut i: usize = 0;
            while i < x.len() || i < y.len()
                invariant
                    i <= x@.len() || i <= y@.len(),
                    a matches Json::Array(p, _) && p == x,
                    b matches Json::Array(q, _) && q == y,
                    change_views(out@) + item_changes(path@, *a, *b, i as int) == total,
                decreases x.len() + y.len() - i,
            {
                let ghost now = change_views(out@);
                let mut p: String = path.to_owned();
                p.append("[");
                push_nat(&mut p, i as u64);
                p.append("]");
                let ghost here = if i < x@.len() && i < y@.len() {
                    changes(p@, x@[i as int], y@[i as int])
                } else if i < x@.len() {
                    leaf_change(p@, x@[i as int], Json::Null)
                } else {
                    leaf_change(p@, Json::Null, y@[i as int])
                };
                if i < x.len() && i < y.len() {
                    diff_value(p.as_str(), &x[i], &y[i], out);
                } else if i < x.len() {
                    push_leaf(p.as_str(), &x[i], &Json::Null, out);
                } else {
                    push_leaf(p.as_str(), &Json::Null, &y[i], out);
                }
                proof {
                    assert(change_views(out@) == now + here);
                    let rest = item_changes(path@, *a, *b, i + 1);
                    assert(item_changes(path@, *a, *b, i as int) == here + rest);
                    assert(now + (here + rest) == (now + here) + rest);
                }
                i += 1;
            }
            assert(item_changes(path@, *a, *b, i as int) == Seq::<ChangeView>::empty());
            assert(change_views(out@) + Seq::<ChangeView>::empty() == change_views(out@));
        },
        _ => push_leaf(path, a, b, out),
    }
}

/// The changes between two configurations; none where they are the same.
pub open spec fn config_changes_of(a: Json, b: Json) -> Seq<ChangeView> {
    if same_value(a, b) {
        Seq::empty()
    } else {
        changes(Seq::empty(), a, b)
    }
}

/// The changes between two configurations.
pub fn config_changes(a: &Json, b: &Json) -> (r: Vec<Change>)
    ensures
        change_views(r@) == config_changes_of(*a, *b),
{
    let mut out: Vec<Change> = Vec::new();
    assert(change_views(out@) =~= Seq::<ChangeView>::empty());
    if !values_agree(a, b) {
        proof {
            reveal_strlit("");
            assert(""@ =~= Seq::<char>::empty());
        }
        diff_value("", a, b, &mut out);
        assert(Seq::<ChangeView>::empty() + changes(Seq::empty(), *a, *b) =~= changes(
            Seq::empty(),
            *a,
            *b,
        ));
    }
    out
}

/// The changes between two configurations that are given as JSON texts;
/// nothing where one of them is not JSON.
pub fn log_config_change(a: &str, b: &str) -> (r: Option<Vec<Change>>)
    ensures
        r is Some <==> json_text(a@) is Some && json_text(b@) is Some,
        r matches Some(v) ==> change_views(v@) == config_changes_of(
            json_text(a@)->0,
            json_text(b@)->0,
        ),
{
    match (parse_json(a), parse_json(b)) {
        (Some(x), Some(y)) => Some(config_changes(&x, &y)),
        _ => None,
    }
}

// ---------------------------------------------------------------------------
// Laws
// ---------------------------------------------------------------------------

proof fn lemma_key_index(v: Seq<(String, Json)>, k: Seq<char>, i: int)
    requires
        0 <= i,
    ensures
        key_index(v, k, i) matches Some(p) ==> i <= p < v.len() && v[p].0@ == k,
    decreases v.len() - i,
{
    if i < v.len() && v[i].0@ != k {
        lemma_key_index(v, k, i + 1);
    }
}

proof fn lemma_same_key_index(
    x: Seq<(String, Json)>,
    y: Seq<(String, Json)>,
    k: Seq<char>,
    i: int,
)
    requires
        0 <= i,
        x.len() == y.len(),
        forall|j: int| 0 <= j < x.len() ==> (#[trigger] x[j]).0@ == y[j].0@,
    ensures
        key_index(x, k, i) == key_index(y, k, i),
    decreases x.len() - i,
{
    if i < x.len() {
        assert(x[i].0@ == y[i].0@);
        lemma_same_key_index(x, y, k, i + 1);
    }
}

proof fn lemma_no_key_changes(
    path: Seq<char>,
    a: Json,
    b: Json,
    keys: Seq<Seq<char>>,
    i: int,
)
    requires
        0 <= i,
        same_value(a, b),
        a is Object,
    ensures
        key_changes(path, a, b, keys, i) == Seq::<ChangeView>::empty(),
    decreases a, 0int, keys.len() - i,
{
    match (a, b) {
        (Json::Object(x, _), Json::Object(y, _)) => {
            if i < keys.len() {
                lemma_same_key_index(x@, y@, keys[i], 0);
                lemma_key_index(x@, keys[i], 0);
                if let Some(m) = key_index(x@, keys[i], 0) {
                    assert(x@[m].0@ == y@[m].0@ && same_value(x@[m].1, y@[m].1));
                    law_same_has_no_changes(field_path(path, keys[i]), x@[m].1, y@[m].1);
                }
                lemma_no_key_changes(path, a, b, keys, i + 1);
            }
        },
        _ => {},
    }
}

/// Values that are the same have no changes.
pub proof fn law_same_has_no_changes(path: Seq<char>, a: Json, b: Json)
    requires
        same_value(a, b),
    ensures
        changes(path, a, b) == Seq::<ChangeView>::empty(),
    decreases a, 1int, 0int,
{
    match (a, b) {
        (Json::Object(x, _), Json::Object(y, _)) => {
            lemma_no_key_changes(path, a, b, all_keys(x@, y@), 0);
        },
        _ => {},
    }
}

/// A value is the same as itself.
pub proof fn law_value_is_same_as_itself(a: Json)
    ensures
        same_value(a, a),
    decreases a,
{
    match a {
        Json::Array(x, _) => {
            assert forall|i: int| 0 <= i < x@.len() implies same_value(
                #[trigger] x@[i],
                x@[i],
            ) by {
                law_value_is_same_as_itself(x@[i]);
            }
        },
        Json::Object(x, _) => {
            assert forall|i: int| 0 <= i < x@.len() implies (#[trigger] x@[i]).0@ == x@[i].0@
                && same_value(x@[i].1, x@[i].1) by {
                law_value_is_same_as_itself(x@[i].1);
            }
        },
        _ => {},
    }
}

proof fn lemma_text_less(a: Seq<char>, b: Seq<char>, c: Seq<char>)
    ensures
        !text_less(a, a),
        a != b ==> text_less(a, b) || text_less(b, a),
        text_less(a, b) && text_less(b, c) ==> text_less(a, c),
    decreases a.len(),
{
    if a.len() > 0 {
        let ta = a.subrange(1, a.len() as int);
        let tb = if b.len() > 0 {
            b.subrange(1, b.len() as int)
        } else {
            b
        };
        let tc = if c.len() > 0 {
            c.subrange(1, c.len() as int)
        } else {
            c
        };
        lemma_text_less(ta, tb, tc);
        if b.len() > 0 && a[0] == b[0] && ta == tb {
            assert(a == seq![a[0]] + ta);
            assert(b == seq![b[0]] + tb);
        }
    } else if b.len() == 0 {
        assert(a == b);
    }
}

/// The keys are in strictly ascending order.
pub open spec fn ascending(keys: Seq<Seq<char>>) -> bool {
    forall|i: int, j: int| 0 <= i < j < keys.len() ==> text_less(#[trigger] keys[i], #[trigger] keys[j])
}

proof fn lemma_key_place(keys: Seq<Seq<char>>, k: Seq<char>, i: int)
    requires
        0 <= i <= keys.len(),
    ensures
        i <= key_place(keys, k, i) <= keys.len(),
        forall|j: int| i <= j < key_place(keys, k, i) ==> text_less(#[trigger] keys[j], k),
        key_place(keys, k, i) < keys.len() ==> !text_less(keys[key_place(keys, k, i)], k),
    decreases keys.len() - i,
{
    if i < keys.len() && text_less(keys[i], k) {
        lemma_key_place(keys, k, i + 1);
    }
}

proof fn lemma_with_key(keys: Seq<Seq<char>>, k: Seq<char>, t: Seq<char>)
    requires
        ascending(keys),
    ensures
        ascending(with_key(keys, k)),
        with_key(keys, k).contains(t) <==> keys.contains(t) || t == k,
{
    let p = key_place(keys, k, 0);
    lemma_key_place(keys, k, 0);
    let w = with_key(keys, k);
    if p < keys.len() && keys[p] == k {
    } else {
        assert forall|i: int, j: int| 0 <= i < j < w.len() implies text_less(
            #[trigger] w[i],
            #[trigger] w[j],
        ) by {
            if j == p {
                assert(w[i] == keys[i]);
            } else if i == p {
                assert(w[j] == keys[j - 1]);
                lemma_text_less(k, keys[p], k);
                lemma_text_less(k, keys[p], keys[j - 1]);
            } else {
                let a = if i < p {
                    i
                } else {
                    i - 1
                };
                let b = if j < p {
                    j
                } else {
                    j - 1
                };
                assert(w[i] == keys[a] && w[j] == keys[b]);
            }
        }
        if keys.contains(t) {
            let n = choose|n: int| 0 <= n < keys.len() && keys[n] == t;
            if n < p {
                assert(w[n] == t);
            } else {
                assert(w[n + 1] == t);
            }
        }
        if t == k {
            assert(w[p] == k);
        }
        if w.contains(t) {
            let n = choose|n: int| 0 <= n < w.len() && w[n] == t;
            if n < p {
                assert(keys[n] == t);
            } else if n > p {
                assert(keys[n - 1] == t);
            }
        }
    }
}

/// Some entry among the first `n` has the key `k`.
pub open spec fn has_key(v: Seq<(String, Json)>, n: int, k: Seq<char>) -> bool {
    exists|i: int| 0 <= i < n && (#[trigger] v[i]).0@ == k
}

proof fn lemma_with_entries(keys: Seq<Seq<char>>, v: Seq<(String, Json)>, n: nat, t: Seq<char>)
    requires
        ascending(keys),
        n <= v.len(),
    ensures
        ascending(with_entries(keys, v, n)),
        with_entries(keys, v, n).contains(t) <==> keys.contains(t) || has_key(v, n as int, t),
    decreases n,
{
    if n > 0 {
        let m = (n - 1) as nat;
        lemma_with_entries(keys, v, m, t);
        lemma_with_key(with_entries(keys, v, m), v[m as int].0@, t);
        if has_key(v, n as int, t) {
            let i = choose|i: int| 0 <= i < n && (#[trigger] v[i]).0@ == t;
            if i < m {
                assert(has_key(v, m as int, t));
            }
        }
        if has_key(v, m as int, t) {
            let i = choose|i: int| 0 <= i < m && (#[trigger] v[i]).0@ == t;
            assert(v[i].0@ == t && i < n);
        }
    }
}

/// The settings of two objects are gone through in the order of their keys,
/// each key once, and none is left out.
pub proof fn law_keys_are_in_order(x: Seq<(String, Json)>, y: Seq<(String, Json)>, k: Seq<char>)
    ensures
        ascending(all_keys(x, y)),
        all_keys(x, y).contains(k) <==> has_key(x, x.len() as int, k) || has_key(
            y,
            y.len() as int,
            k,
        ),
{
    let e = Seq::<Seq<char>>::empty();
    lemma_with_entries(e, x, x.len(), k);
    lemma_with_entries(with_entries(e, x, x.len()), y, y.len(), k);
}

/// Text is ordered by the first place where it differs, and what is shorter comes
/// before what goes on from it.
pub proof fn law_first_letter_decides(p: Seq<char>, c: char, s: Seq<char>, d: char, t: Seq<char>)
    requires
        c != d,
    ensures
        text_less(p.push(c) + s, p.push(d) + t) <==> c < d,
        text_less(p, p.push(c) + s),
        !text_less(p.push(c) + s, p),
        !text_less(p, p),
    decreases p.len(),
{
    let (a, b) = (p.push(c) + s, p.push(d) + t);
    if p.len() > 0 {
        let q = p.subrange(1, p.len() as int);
        law_first_letter_decides(q, c, s, d, t);
        assert(a.subrange(1, a.len() as int) =~= q.push(c) + s);
        assert(b.subrange(1, b.len() as int) =~= q.push(d) + t);
    }
}

/// Values of one kind are the same where they hold the same, and values of two
/// kinds never are.
pub proof fn law_same_values_hold_the_same(a: Json, b: Json)
    ensures
        (a, b) matches (Json::Str(x), Json::Str(y)) ==> (same_value(a, b) <==> x@ == y@),
        (a, b) matches (Json::Bool(x), Json::Bool(y)) ==> (same_value(a, b) <==> x == y),
        (a, b) matches (Json::Number(x), Json::Number(y)) ==> {
            &&& same_value(a, b) ==> x.unsigned == y.unsigned && x.signed == y.signed
            &&& x.unsigned is Some && x.unsigned == y.unsigned && x.signed == y.signed
                ==> same_value(a, b)
            &&& x.unsigned is None && y.unsigned is None && x.signed is None && y.signed is None ==> (
            same_value(a, b) <==> x.bits == y.bits || (x.bits as int % 0x8000_0000_0000_0000 == 0
                && y.bits as int % 0x8000_0000_0000_0000 == 0))
        },
        (a, b) matches (Json::Array(x, _), Json::Array(y, _)) ==> same_value(a, b) ==> x@.len()
            == y@.len(),
        same_value(a, b) ==> (a is Null <==> b is Null) && (a is Bool <==> b is Bool) && (
        a is Number <==> b is Number) && (a is Str <==> b is Str) && (a is Array <==> b is Array)
            && (a is Object <==> b is Object),
{
}

/// Whether two values are the same does not depend on which comes first.
pub proof fn law_sameness_goes_both_ways(a: Json, b: Json)
    requires
        same_value(a, b),
    ensures
        same_value(b, a),
    decreases a,
{
    match (a, b) {
        (Json::Array(x, _), Json::Array(y, _)) => {
            assert forall|i: int| 0 <= i < y@.len() implies same_value(
                #[trigger] y@[i],
                x@[i],
            ) by {
                assert(same_value(x@[i], y@[i]));
                law_sameness_goes_both_ways(x@[i], y@[i]);
            }
        },
        (Json::Object(x, _), Json::Object(y, _)) => {
            assert forall|i: int| 0 <= i < y@.len() implies (#[trigger] y@[i]).0@ == x@[i].0@
                && same_value(y@[i].1, x@[i].1) by {
                assert(x@[i].0@ == y@[i].0@ && same_value(x@[i].1, y@[i].1));
                law_sameness_goes_both_ways(x@[i].1, y@[i].1);
            }
        },
        _ => {},
    }
}

/// A text, a truth or nothing that became another one is one change: at its path,
/// from what it was to what it is.
pub proof fn law_changed_leaf_is_told(path: Seq<char>, x: String, y: String, p: bool)
    ensures
        x@ != y@ ==> changes(path, Json::Str(x), Json::Str(y)) == seq![
            (ChangeView { path, before: x@, after: y@ }),
        ],
        changes(path, Json::Bool(true), Json::Bool(false)) == seq![
            (ChangeView { path, before: "true"@, after: "false"@ }),
        ],
        changes(path, Json::Null, Json::Str(x)) == seq![
            (ChangeView { path, before: "null"@, after: x@ }),
        ],
        changes(path, Json::Str(x), Json::Bool(p)) == seq![
            (ChangeView {
                path,
                before: x@,
                after: if p {
                    "true"@
                } else {
                    "false"@
                },
            }),
        ],
{
}

proof fn lemma_key_is_gone_through(
    path: Seq<char>,
    a: Json,
    b: Json,
    keys: Seq<Seq<char>>,
    i: int,
    n: int,
    c: ChangeView,
)
    requires
        0 <= i <= n < keys.len(),
        a is Object,
        b is Object,
        ({
            let (x, y) = (a->Object_0@, b->Object_0@);
            let p = field_path(path, keys[n]);
            match (key_index(x, keys[n], 0), key_index(y, keys[n], 0)) {
                (Some(k), Some(m)) => changes(p, x[k].1, y[m].1).contains(c),
                (Some(k), None) => leaf_change(p, x[k].1, Json::Null).contains(c),
                (None, Some(m)) => leaf_change(p, Json::Null, y[m].1).contains(c),
                (None, None) => false,
            }
        }),
    ensures
        key_changes(path, a, b, keys, i).contains(c),
    decreases n - i,
{
    let (x, y) = (a->Object_0@, b->Object_0@);
    let p = field_path(path, keys[i]);
    let all = key_changes(path, a, b, keys, i);
    let rest = key_changes(path, a, b, keys, i + 1);
    lemma_key_index(x, keys[i], 0);
    lemma_key_index(y, keys[i], 0);
    let here = match (key_index(x, keys[i], 0), key_index(y, keys[i], 0)) {
        (Some(k), Some(m)) => changes(p, x[k].1, y[m].1),
        (Some(k), None) => leaf_change(p, x[k].1, Json::Null),
        (None, Some(m)) => leaf_change(p, Json::Null, y[m].1),
        (None, None) => Seq::empty(),
    };
    assert(all == here + rest);
    if i < n {
        lemma_key_is_gone_through(path, a, b, keys, i + 1, n, c);
        let k = choose|k: int| 0 <= k < rest.len() && rest[k] == c;
        assert(all[here.len() + k] == c);
    } else {
        let k = choose|k: int| 0 <= k < here.len() && here[k] == c;
        assert(all[k] == c);
    }
}

proof fn lemma_first_key(v: Seq<(String, Json)>, k: Seq<char>, i: int, n: int)
    requires
        0 <= i <= n < v.len(),
        v[n].0@ == k,
        forall|j: int| i <= j < n ==> (#[trigger] v[j]).0@ != k,
    ensures
        key_index(v, k, i) == Some(n),
    decreases n - i,
{
    if i < n {
        lemma_first_key(v, k, i + 1, n);
    }
}

proof fn lemma_no_key(v: Seq<(String, Json)>, k: Seq<char>, i: int)
    requires
        0 <= i,
        forall|j: int| i <= j < v.len() ==> (#[trigger] v[j]).0@ != k,
    ensures
        key_index(v, k, i) is None,
    decreases v.len() - i,
{
    if i < v.len() {
        lemma_no_key(v, k, i + 1);
    }
}

/// What changed inside a setting that two objects share is among the changes of the
/// objects, under the setting's name behind the path and a dot.
pub proof fn law_changes_of_a_setting_are_told(
    path: Seq<char>,
    x: Vec<(String, Json)>,
    s: String,
    y: Vec<(String, Json)>,
    t: String,
    m: int,
    n: int,
    c: ChangeView,
)
    requires
        0 <= m < x@.len(),
        0 <= n < y@.len(),
        x@[m].0@ == y@[n].0@,
        forall|j: int| 0 <= j < m ==> (#[trigger] x@[j]).0@ != x@[m].0@,
        forall|j: int| 0 <= j < n ==> (#[trigger] y@[j]).0@ != x@[m].0@,
        ({
            let p = if path.len() == 0 {
                x@[m].0@
            } else {
                path + "."@ + x@[m].0@
            };
            changes(p, x@[m].1, y@[n].1).contains(c)
        }),
    ensures
        changes(path, Json::Object(x, s), Json::Object(y, t)).contains(c),
{
    let k = x@[m].0@;
    let keys = all_keys(x@, y@);
    law_keys_are_in_order(x@, y@, k);
    assert(has_key(x@, x@.len() as int, k));
    let i = choose|i: int| 0 <= i < keys.len() && keys[i] == k;
    lemma_first_key(x@, k, 0, m);
    lemma_first_key(y@, k, 0, n);
    lemma_key_is_gone_through(path, Json::Object(x, s), Json::Object(y, t), keys, 0, i, c);
}

/// A setting that is gone, or that is new, is told as one that became nothing, or
/// was nothing before.
pub proof fn law_settings_come_and_go(
    x: Vec<(String, Json)>,
    s: String,
    y: Vec<(String, Json)>,
    t: String,
    m: int,
    text: String,
)
    requires
        0 <= m < x@.len(),
        x@[m].1 == Json::Str(text),
        forall|j: int| 0 <= j < m ==> (#[trigger] x@[j]).0@ != x@[m].0@,
        forall|j: int| 0 <= j < y@.len() ==> (#[trigger] y@[j]).0@ != x@[m].0@,
    ensures
        changes(Seq::empty(), Json::Object(x, s), Json::Object(y, t)).contains(
            (ChangeView { path: x@[m].0@, before: text@, after: "null"@ }),
        ),
        changes(Seq::empty(), Json::Object(y, t), Json::Object(x, s)).contains(
            (ChangeView { path: x@[m].0@, before: "null"@, after: text@ }),
        ),
{
    let k = x@[m].0@;
    let (a, b) = (Json::Object(x, s), Json::Object(y, t));
    law_keys_are_in_order(x@, y@, k);
    law_keys_are_in_order(y@, x@, k);
    assert(has_key(x@, x@.len() as int, k));
    lemma_first_key(x@, k, 0, m);
    lemma_no_key(y@, k, 0);
    let gone = ChangeView { path: k, before: text@, after: "null"@ };
    let new = ChangeView { path: k, before: "null"@, after: text@ };
    let i = choose|i: int| 0 <= i < all_keys(x@, y@).len() && all_keys(x@, y@)[i] == k;
    let j = choose|j: int| 0 <= j < all_keys(y@, x@).len() && all_keys(y@, x@)[j] == k;
    assert(leaf_change(k, x@[m].1, Json::Null)[0] == gone);
    assert(leaf_change(k, Json::Null, x@[m].1)[0] == new);
    lemma_key_is_gone_through(Seq::empty(), a, b, all_keys(x@, y@), 0, i, gone);
    lemma_key_is_gone_through(Seq::empty(), b, a, all_keys(y@, x@), 0, j, new);
}

proof fn lemma_item_is_gone_through(
    path: Seq<char>,
    a: Json,
    b: Json,
    i: int,
    n: int,
    c: ChangeView,
)
    requires
        a is Array,
        b is Array,
        ({
            let (x, y) = (a->Array_0@, b->Array_0@);
            &&& 0 <= i <= n
            &&& n < x.len() || n < y.len()
            &&& n < x.len() && n < y.len() ==> changes(item_path(path, n as nat), x[n], y[n]).contains(c)
            &&& n >= y.len() ==> leaf_change(item_path(path, n as nat), x[n], Json::Null).contains(c)
            &&& n >= x.len() ==> leaf_change(item_path(path, n as nat), Json::Null, y[n]).contains(c)
        }),
    ensures
        item_changes(path, a, b, i).contains(c),
    decreases n - i,
{
    let (x, y) = (a->Array_0@, b->Array_0@);
    let p = item_path(path, i as nat);
    let all = item_changes(path, a, b, i);
    let rest = item_changes(path, a, b, i + 1);
    let here = if i < x.len() && i < y.len() {
        changes(p, x[i], y[i])
    } else if i < x.len() {
        leaf_change(p, x[i], Json::Null)
    } else {
        leaf_change(p, Json::Null, y[i])
    };
    assert(all == here + rest);
    if i < n {
        lemma_item_is_gone_through(path, a, b, i + 1, n, c);
        let k = choose|k: int| 0 <= k < rest.len() && rest[k] == c;
        assert(all[here.len() + k] == c);
    } else {
        let k = choose|k: int| 0 <= k < here.len() && here[k] == c;
        assert(all[k] == c);
    }
}

/// An item of a list that became another text is told with its number in brackets
/// behind the path; one that is gone became nothing, and a new one was nothing.
pub proof fn law_changed_items_are_told(
    path: Seq<char>,
    x: Vec<Json>,
    s: String,
    y: Vec<Json>,
    t: String,
    n: int,
    u: String,
    v: String,
)
    requires
        0 <= n,
        n < x@.len() || n < y@.len(),
        n < x@.len() ==> x@[n] == Json::Str(u),
        n < y@.len() ==> y@[n] == Json::Str(v),
        u@ != v@,
    ensures
        changes(path, Json::Array(x, s), Json::Array(y, t)).contains(
            (ChangeView {
                path: path + "["@ + decimal_nat(n as nat) + "]"@,
                before: if n < x@.len() {
                    u@
                } else {
                    "null"@
                },
                after: if n < y@.len() {
                    v@
                } else {
                    "null"@
                },
            }),
        ),
{
    let (a, b) = (Json::Array(x, s), Json::Array(y, t));
    let p = item_path(path, n as nat);
    let c = ChangeView {
        path: p,
        before: if n < x@.len() {
            u@
        } else {
            "null"@
        },
        after: if n < y@.len() {
            v@
        } else {
            "null"@
        },
    };
    if n < x@.len() && n < y@.len() {
        assert(!same_value(x@[n], y@[n]));
        assert(changes(p, x@[n], y@[n])[0] == c);
    } else if n < x@.len() {
        assert(leaf_change(p, x@[n], Json::Null)[0] == c);
    } else {
        assert(leaf_change(p, Json::Null, y@[n])[0] == c);
    }
    assert(!same_value(a, b));
    lemma_item_is_gone_through(path, a, b, 0, n, c);
}

/// Configurations that are written alike have no changes, and one that is not JSON
/// is compared with none.
pub proof fn law_compared_configurations(a: &str, b: &str, r: Option<Vec<Change>>)
    requires
        call_ensures(log_config_change, (a, b), r),
    ensures
        a@ == b@ && json_text(a@) is Some ==> r is Some && r->0@.len() == 0,
        json_text(a@) is None || json_text(b@) is None ==> r is None,
        json_text(a@) is Some && json_text(b@) is Some ==> r is Some,
{
    if a@ == b@ && json_text(a@) is Some {
        law_value_is_same_as_itself(json_text(a@)->0);
        assert(change_views(r->0@).len() == r->0@.len());
    }
}

} // verus!
