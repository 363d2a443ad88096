//! The run logger that is carried along: which file it is, which of its
//! versions is the newest, and where it is put to be loaded.

use crate::text::{find_char, from_range, join_path, parse_unsigned, push_nat, same_text, split_lines, to_chars, trim_bounds};
use vstd::prelude::*;
use vstd::string::*;

verus! {

use crate::text::{decimal_nat, law_numbers_round_trip, lemma_decimal_nat, find_from, lemma_find_from, lemma_find_shift, lines, path_in, texts, trimmed, unsigned_value};

/// The logger's file for a machine.
pub open spec fn file_for(arch: Seq<char>) -> Option<Seq<char>> {
    if arch == "x86_64"@ {
        Some("liblogger_x64.so"@)
    } else if arch == "x86"@ {
        Some("liblogger_x86.so"@)
    } else if arch == "aarch64"@ {
        Some("liblogger_arm64.so"@)
    } else if arch == "arm"@ {
        Some("liblogger_arm32.so"@)
    } else {
        None
    }
}

pub fn logger_file(arch: &str) -> (r: Option<&'static str>)
    ensures
        r is Some <==> file_for(arch@) is Some,
        r matches Some(f) ==> Some(f@) == file_for(arch@),
{
    if same_text(arch, "x86_64") {
        Some("liblogger_x64.so")
    } else if same_text(arch, "x86") {
        Some("liblogger_x86.so")
    } else if same_text(arch, "aarch64") {
        Some("liblogger_arm64.so")
    } else if same_text(arch, "arm") {
        Some("liblogger_arm32.so")
    } else {
        None
    }
}

/// Where the logger is put: a directory for this process, and the file in it.
/// `None` where there is no logger to load.
pub fn load_plan(bytes: usize, temp_dir: &str, pid: u32, file: &str) -> (r: Option<(String, String)>)
    ensures
        r is Some <==> bytes > 0,
        r matches Some((dir, path)) ==> {
            &&& dir@ == path_in(temp_dir@, "tuxinjector-"@ + decimal_nat(pid as nat))
            &&& path@ == path_in(dir@, file@)
        },
{
    if bytes == 0 {
        return None;
    }
    let mut name: String = "tuxinjector-".to_owned();
    push_nat(&mut name, pid as u64);
    let dir = join_path(temp_dir, name.as_str());
    let path = join_path(dir.as_str(), file);
    Some((dir, path))
}

// ---------------------------------------------------------------------------
// The list of versions
// ---------------------------------------------------------------------------

/// The three fields of a line, without the white space around them; the third
/// may hold commas.
pub open spec fn row_of(line: Seq<char>) -> Option<(Seq<char>, Seq<char>, Seq<char>)> {
    match find_from(line, seq![','], 0) {
        None => None,
        Some(a) => match find_from(line, seq![','], a + 1) {
            None => None,
            Some(b) => Some(
                (
                    trimmed(line.subrange(0, a)),
                    trimmed(line.subrange(a + 1, b)),
                    trimmed(line.subrange(b + 1, line.len() as int)),
                ),
            ),
        },
    }
}

/// The numbers between the dots of a version; what is no number is left out.
pub open spec fn version_of(s: Seq<char>) -> Seq<u32>
    decreases s.len(),
{
    match find_from(s, seq!['.'], 0) {
        Some(i) => if 0 <= i < s.len() {
            number_part(s.take(i)) + version_of(s.skip(i + 1))
        } else {
            Seq::empty()
        },
        None => number_part(s),
    }
}

pub open spec fn number_part(s: Seq<char>) -> Seq<u32> {
    match unsigned_value(s, u32::MAX as int) {
        Some(n) => seq![n as u32],
        None => Seq::empty(),
    }
}

/// Version `a` is at most version `b`: compared number by number, a version that
/// goes on is the later one.
pub open spec fn at_most(a: Seq<u32>, b: Seq<u32>) -> bool
    decreases a.len(),
{
    if a.len() == 0 {
        true
    } else if b.len() == 0 {
        false
    } else if a[0] == b[0] {
        at_most(a.skip(1), b.skip(1))
    } else {
        a[0] < b[0]
    }
}

/// The newest version among the lines from `i` on and the one found before, with
/// its hash. A line of fewer than three fields ends the search without a result.
pub open spec fn newest(
    rows: Seq<Seq<char>>,
    file: Seq<char>,
    i: int,
    found: Option<(Seq<u32>, Seq<char>)>,
) -> Option<Seq<char>>
    decreases rows.len() - i,
{
    if 0 <= i < rows.len() {
        match row_of(rows[i]) {
            None => None,
            Some((name, version, hash)) => newest(
                rows,
                file,
                i + 1,
                if name == file && !(found matches Some((v, _)) && at_most(version_of(version), v)) {
                    Some((version_of(version), hash))
                } else {
                    found
                },
            ),
        }
    } else {
        match found {
            Some((_, hash)) => Some(hash),
            None => None,
        }
    }
}

/// Splits a line into its three fields.
fn split_row(line: &str) -> (r: Option<(String, String, String)>)
    ensures
        r is Some <==> row_of(line@) is Some,
        r matches Some((a, b, c)) ==> row_of(line@) == Some((a@, b@, c@)),
{
    let v = to_chars(line);
    let n: usize = v.len();
    assert(v@.subrange(0, n as int) =~= v@);
    match find_char(&v, ',', 0) {
        None => None,
        Some(a) => match find_char(&v, ',', a + 1) {
            None => None,
            Some(b) => {
                let (f0, t0) = trim_bounds(&v, 0, a);
                let (f1, t1) = trim_bounds(&v, a + 1, b);
                let (f2, t2) = trim_bounds(&v, b + 1, n);
                Some((from_range(&v, f0, t0), from_range(&v, f1, t1), from_range(&v, f2, t2)))
            },
        },
    }
}

/// The rows of a list: its lines but the first, without an empty last one.
pub open spec fn rows_of(text: Seq<char>) -> Seq<Seq<char>> {
    let all = lines(text);
    let kept = if all.last().len() == 0 {
        all.drop_last()
    } else {
        all
    };
    if kept.len() > 0 {
        kept.skip(1)
    } else {
        kept
    }
}

proof fn lemma_lines_nonempty(s: Seq<char>)
    ensures
        lines(s).len() > 0,
    decreases s.len(),
{
    lemma_find_from(s, seq!['\n'], 0);
}

fn push_number(out: &mut Vec<u32>, v: &Vec<char>, from: usize, to: usize)
    requires
        from <= to <= v@.len(),
    ensures
        final(out)@ == old(out)@ + number_part(v@.subrange(from as int, to as int)),
{
    if let Some(n) = parse_unsigned(v, from, to, u32::MAX as u64) {
        out.push(n as u32);
    }
}

/// Reads the numbers of a version.
pub fn version_numbers(version: &str) -> (r: Vec<u32>)
    ensures
        r@ == version_of(version@),
{
    let v = to_chars(version);
    let n: usize = v.len();
    let mut out: Vec<u32> = Vec::new();
    let mut from: usize = 0;
    assert(version@.subrange(0, n as int) =~= version@);
    loop
        invariant
            from <= n,
            n == v@.len(),
            v@ == version@,
            out@ + version_of(version@.subrange(from as int, n as int)) == version_of(version@),
        decreases n - from,
    {
        let ghost rest = version@.subrange(from as int, n as int);
        let ghost before = out@;
        proof {
            lemma_find_shift(version@, seq!['.'], from as int, 0);
            lemma_find_from(rest, seq!['.'], 0);
        }
        match find_char(&v, '.', from) {
            Some(i) => {
                push_number(&mut out, &v, from, i);
                proof {
                    assert(rest.take(i - from) =~= version@.subrange(from as int, i as int));
                    assert(rest.skip(i - from + 1) =~= version@.subrange(i + 1, n as int));
                    assert(before + (number_part(rest.take(i - from)) + version_of(
                        rest.skip(i - from + 1),
                    )) =~= out@ + version_of(version@.subrange(i + 1, n as int)));
                }
                from = i + 1;
            },
            None => {
                push_number(&mut out, &v, from, n);
                return out;
            },
        }
    }
}

fn not_later(a: &Vec<u32>, b: &Vec<u32>) -> (r: bool)
    ensures
        r == at_most(a@, b@),
{
    let mut i: usize = 0;
    assert(a@.skip(0) =~= a@ && b@.skip(0) =~= b@);
    while i < a.len()
        invariant
            i <= a@.len(),
            i <= b@.len(),
            at_most(a@, b@) == at_most(a@.skip(i as int), b@.skip(i as int)),
        decreases a.len() - i,
    {
        let ghost x = a@.skip(i as int);
        let ghost y = b@.skip(i as int);
        if i >= b.len() {
            return false;
        }
        assert(x[0] == a@[i as int] && y[0] == b@[i as int]);
        if a[i] != b[i] {
            return a[i] < b[i];
        }
        assert(x.skip(1) =~= a@.skip(i + 1) && y.skip(1) =~= b@.skip(i + 1));
        i += 1;
    }
    true
}

/// What was found so far, as plain values.
pub open spec fn found_so_far(f: Option<(Vec<u32>, String)>) -> Option<(Seq<u32>, Seq<char>)> {
    match f {
        Some((v, h)) => Some((v@, h@)),
        None => None,
    }
}

/// The hash of the newest version of a file, from a list whose lines hold a
/// file, a version and a hash, behind a line of titles.
pub fn find_latest_hash(csv: &str, file: &str) -> (r: Option<String>)
    ensures
        r is Some <==> newest(rows_of(csv@), file@, 0, None) is Some,
        r matches Some(h) ==> newest(rows_of(csv@), file@, 0, None) == Some(h@),
{
    let all = split_lines(csv);
    proof {
        lemma_lines_nonempty(csv@);
        assert(texts(all@).len() == all@.len());
        assert(texts(all@).last() == all@.last()@);
    }
    let count: usize = if all[all.len() - 1].as_str().is_empty() {
        all.len() - 1
    } else {
        all.len()
    };
    let mut found: Option<(Vec<u32>, String)> = None;
    let mut i: usize = 1;
    let ghost rows = rows_of(csv@);
    proof {
        assert(count > 0 ==> rows.len() == count - 1);
        assert(forall|k: int| 0 <= k < rows.len() ==> rows[k] == all@[k + 1]@);
    }
    while i < count
        invariant
            1 <= i,
            i <= count || count == 0,
            count <= all@.len(),
            rows == rows_of(csv@),
            count > 0 ==> rows.len() == count - 1,
            count == 0 ==> rows.len() == 0,
            forall|k: int| 0 <= k < rows.len() ==> #[trigger] rows[k] == all@[k + 1]@,
            newest(rows, file@, 0, None) == newest(rows, file@, i - 1, found_so_far(found)),
        decreases count - i,
    {
        let ghost at = i - 1;
        assert(rows[at] == all@[at + 1]@);
        match split_row(all[i].as_str()) {
            None => {
                return None;
            },
            Some((name, version, hash)) => {
                if same_text(name.as_str(), file) {
                    let numbers = version_numbers(version.as_str());
                    let keep = match &found {
                        Some((v, _)) => not_later(&numbers, v),
                        None => false,
                    };
                    if !keep {
                        found = Some((numbers, hash));
                    }
                }
            },
        }
        i += 1;
    }
    match found {
        Some((_, h)) => Some(h),
        None => None,
    }
}

/// How the hash of a logger compares with the list.
#[derive(Clone, Copy, Debug, PartialEq, Eq, Structural)]
pub enum HashCheck {
    /// It is the one that is listed.
    Matches,
    /// The list has none.
    NotListed,
    /// Another one is listed.
    Differs,
}

/// Compares the hash of a logger with the one that is listed for it.
pub fn check_hash(expected: Option<&str>, actual: &str) -> (r: HashCheck)
    ensures
        r == match expected {
            Some(e) => if e@ == actual@ {
                HashCheck::Matches
            } else {
                HashCheck::Differs
            },
            None => HashCheck::NotListed,
        },
{
    match expected {
        Some(e) => {
            if same_text(e, actual) {
                HashCheck::Matches
            } else {
                HashCheck::Differs
            }
        },
        None => HashCheck::NotListed,
    }
}

/// Whether a logger may be carried along: not with a hash that differs from the
/// listed one, unless it was pinned and the check was waived.
pub fn may_embed(check: HashCheck, pinned: bool, waived: bool) -> (r: bool)
    ensures
        r == (check != HashCheck::Differs || (pinned && waived)),
{
    match check {
        HashCheck::Differs => pinned && waived,
        _ => true,
    }
}

/// Of two versions one is at most the other, and only equal ones are both.
pub proof fn law_versions_are_ordered(a: Seq<u32>, b: Seq<u32>)
    ensures
        at_most(a, b) || at_most(b, a),
        at_most(a, b) && at_most(b, a) ==> a == b,
    decreases a.len(),
{
    if a.len() > 0 && b.len() > 0 && a[0] == b[0] {
        law_versions_are_ordered(a.skip(1), b.skip(1));
        if a.skip(1) == b.skip(1) {
            assert(a =~= seq![a[0]] + a.skip(1));
            assert(b =~= seq![b[0]] + b.skip(1));
        }
    } else if a.len() == 0 && b.len() == 0 {
        assert(a =~= b);
    }
}

proof fn lemma_first_char(s: Seq<char>, c: char, from: int, at: int)
    requires
        0 <= from <= at < s.len(),
        s[at] == c,
        forall|j: int| from <= j < at ==> #[trigger] s[j] != c,
    ensures
        find_from(s, seq![c], from) == Some(at),
{
    lemma_find_from(s, seq![c], from);
    assert(s.subrange(at, at + 1) =~= seq![c]);
    assert(crate::text::matches_at(s, seq![c], at));
    if let Some(i) = find_from(s, seq![c], from) {
        assert(s.subrange(i, i + 1)[0] == s[i]);
    }
}

proof fn lemma_no_char(s: Seq<char>, c: char)
    requires
        !s.contains(c),
    ensures
        find_from(s, seq![c], 0) is None,
{
    lemma_find_from(s, seq![c], 0);
    if let Some(i) = find_from(s, seq![c], 0) {
        assert(s.subrange(i, i + 1)[0] == s[i]);
        assert(s.contains(c));
    }
}

/// A line of the list is its file, its version and its hash, between commas and
/// without the blanks around them; a line with fewer fields is none.
pub proof fn law_rows_round_trip(a: Seq<char>, b: Seq<char>, c: Seq<char>)
    requires
        !a.contains(','),
        !b.contains(','),
    ensures
        row_of(a + seq![','] + b + seq![','] + c) == Some((trimmed(a), trimmed(b), trimmed(c))),
        row_of(a) is None,
        row_of(a + seq![','] + b) is None,
{
    let s = a + seq![','] + b + seq![','] + c;
    let i = a.len() as int;
    let k = i + 1 + b.len();
    assert forall|j: int| 0 <= j < i implies #[trigger] s[j] != ',' by {
        assert(s[j] == a[j]);
    }
    assert forall|j: int| i + 1 <= j < k implies #[trigger] s[j] != ',' by {
        assert(s[j] == b[j - i - 1]);
    }
    lemma_first_char(s, ',', 0, i);
    lemma_first_char(s, ',', i + 1, k);
    assert(s.subrange(0, i) =~= a);
    assert(s.subrange(i + 1, k) =~= b);
    assert(s.subrange(k + 1, s.len() as int) =~= c);
    lemma_no_char(a, ',');
    let u = a + seq![','] + b;
    assert forall|j: int| 0 <= j < i implies #[trigger] u[j] != ',' by {
        assert(u[j] == a[j]);
    }
    lemma_first_char(u, ',', 0, i);
    lemma_find_from(u, seq![','], i + 1);
    if let Some(j) = find_from(u, seq![','], i + 1) {
        assert(u.subrange(j, j + 1)[0] == u[j]);
        assert(u[j] == b[j - i - 1]);
    }
}

/// A version is the numbers between its dots.
pub proof fn law_versions_round_trip(n: u32, rest: Seq<char>)
    ensures
        version_of(decimal_nat(n as nat)) == seq![n],
        version_of(decimal_nat(n as nat) + seq!['.'] + rest) == seq![n] + version_of(rest),
{
    let d = decimal_nat(n as nat);
    lemma_decimal_nat(n as nat);
    law_numbers_round_trip(n as nat, 0, u32::MAX as int);
    assert(!d.contains('.')) by {
        if d.contains('.') {
            let k = choose|k: int| 0 <= k < d.len() && d[k] == '.';
            assert(!crate::text::is_digit(d[k]));
        }
    }
    lemma_no_char(d, '.');
    let s = d + seq!['.'] + rest;
    let i = d.len() as int;
    assert forall|j: int| 0 <= j < i implies #[trigger] s[j] != '.' by {
        assert(s[j] == d[j]);
    }
    lemma_first_char(s, '.', 0, i);
    assert(s.take(i) =~= d);
    assert(s.skip(i + 1) =~= rest);
}

/// Of two versions the first number that differs decides, and a version that goes
/// on is later than one that ends.
pub proof fn law_first_difference_decides(
    p: Seq<u32>,
    x: u32,
    y: u32,
    a: Seq<u32>,
    b: Seq<u32>,
)
    ensures
        x < y ==> at_most(p + seq![x] + a, p + seq![y] + b) && !at_most(
            p + seq![y] + b,
            p + seq![x] + a,
        ),
        at_most(p, p + seq![x] + a),
        !at_most(p + seq![x] + a, p),
    decreases p.len(),
{
    let u = p + seq![x] + a;
    let v = p + seq![y] + b;
    if p.len() > 0 {
        let q = p.skip(1);
        law_first_difference_decides(q, x, y, a, b);
        assert(u.skip(1) =~= q + seq![x] + a);
        assert(v.skip(1) =~= q + seq![y] + b);
        assert(u[0] == p[0] && v[0] == p[0]);
    } else {
        assert(u[0] == x && v[0] == y);
    }
}

proof fn lemma_at_most_transitive(a: Seq<u32>, b: Seq<u32>, c: Seq<u32>)
    requires
        at_most(a, b),
        at_most(b, c),
    ensures
        at_most(a, c),
    decreases a.len(),
{
    if a.len() > 0 && b.len() > 0 && c.len() > 0 && a[0] == b[0] && b[0] == c[0] {
        lemma_at_most_transitive(a.skip(1), b.skip(1), c.skip(1));
    }
}

/// The row `i` tells the version `v` and the hash `h` of the file.
pub open spec fn tells(
    rows: Seq<Seq<char>>,
    file: Seq<char>,
    i: int,
    v: Seq<u32>,
    h: Seq<char>,
) -> bool {
    row_of(rows[i]) matches Some((name, version, hash)) && name == file && version_of(version) == v
        && hash == h
}

/// The row `j` tells the version `v`, and no row tells a later one.
pub open spec fn tells_newest(
    rows: Seq<Seq<char>>,
    file: Seq<char>,
    j: int,
    v: Seq<u32>,
    h: Seq<char>,
) -> bool {
    &&& 0 <= j < rows.len()
    &&& tells(rows, file, j, v, h)
    &&& forall|k: int, w: Seq<u32>, g: Seq<char>|
        0 <= k < rows.len() && #[trigger] tells(rows, file, k, w, g) ==> at_most(w, v)
}

/// `r` is the hash of the newest version of the file; without one no row tells
/// of the file.
pub open spec fn is_newest(
    rows: Seq<Seq<char>>,
    file: Seq<char>,
    r: Option<Seq<char>>,
) -> bool {
    if r is Some {
        is_newest_hash(rows, file, r->0)
    } else {
        forall|k: int, w: Seq<u32>, g: Seq<char>|
            0 <= k < rows.len() ==> !#[trigger] tells(rows, file, k, w, g)
    }
}

/// Some row tells `h` with the newest version of the file.
pub open spec fn is_newest_hash(rows: Seq<Seq<char>>, file: Seq<char>, h: Seq<char>) -> bool {
    exists|j: int, v: Seq<u32>| #[trigger] tells_newest(rows, file, j, v, h)
}

proof fn lemma_is_newest(
    rows: Seq<Seq<char>>,
    file: Seq<char>,
    j: int,
    v: Seq<u32>,
    h: Seq<char>,
)
    requires
        tells_newest(rows, file, j, v, h),
    ensures
        is_newest(rows, file, Some(h)),
{
}

proof fn lemma_newest(
    rows: Seq<Seq<char>>,
    file: Seq<char>,
    i: int,
    found: Option<(Seq<u32>, Seq<char>)>,
    from: int,
)
    requires
        0 <= i <= rows.len(),
        forall|k: int| 0 <= k < rows.len() ==> row_of(#[trigger] rows[k]) is Some,
        match found {
            Some((v, h)) => 0 <= from < i && tells(rows, file, from, v, h) && (forall|k: int,
                w: Seq<u32>,
                g: Seq<char>|
                0 <= k < i && #[trigger] tells(rows, file, k, w, g) ==> at_most(w, v)),
            None => forall|k: int, w: Seq<u32>, g: Seq<char>|
                0 <= k < i ==> !#[trigger] tells(rows, file, k, w, g),
        },
    ensures
        is_newest(rows, file, newest(rows, file, i, found)),
    decreases rows.len() - i,
{
    if i < rows.len() {
        assert(row_of(rows[i]) is Some);
        let (name, version, hash) = row_of(rows[i])->0;
        let v1 = version_of(version);
        let take = name == file && !(found matches Some((v, _)) && at_most(v1, v));
        let next = if take {
            Some((v1, hash))
        } else {
            found
        };
        let from1 = if take {
            i
        } else {
            from
        };
        if take {
            assert(tells(rows, file, i, v1, hash));
            law_versions_are_ordered(v1, v1);
            assert forall|k: int, w: Seq<u32>, g: Seq<char>|
                0 <= k < i + 1 && #[trigger] tells(rows, file, k, w, g) implies at_most(
                w,
                v1,
            ) by {
                if k < i {
                    let (v, _) = found->0;
                    law_versions_are_ordered(v1, v);
                    lemma_at_most_transitive(w, v, v1);
                }
            }
        } else if let Some((v, h)) = found {
            assert forall|k: int, w: Seq<u32>, g: Seq<char>|
                0 <= k < i + 1 && #[trigger] tells(rows, file, k, w, g) implies at_most(
                w,
                v,
            ) by {}
        } else {
            assert forall|k: int, w: Seq<u32>, g: Seq<char>| 0 <= k < i + 1 implies !#[trigger] tells(
                rows,
                file,
                k,
                w,
                g,
            ) by {}
        }
        lemma_newest(rows, file, i + 1, next, from1);
    } else if let Some((v, h)) = found {
        assert(tells_newest(rows, file, from, v, h));
        lemma_is_newest(rows, file, from, v, h);
    } else {
        assert forall|k: int, w: Seq<u32>, g: Seq<char>| 0 <= k < rows.len() implies !#[trigger] tells(
            rows,
            file,
            k,
            w,
            g,
        ) by {
            assert(k < i);
        }
    }
}

/// The hash that is found is the one of the newest version of the file, wherever
/// it stands in the list; none is found exactly where the list has no such file.
pub proof fn law_newest_hash_is_found(rows: Seq<Seq<char>>, file: Seq<char>)
    requires
        forall|k: int| 0 <= k < rows.len() ==> row_of(#[trigger] rows[k]) is Some,
    ensures
        is_newest(rows, file, newest(rows, file, 0, None)),
{
    lemma_newest(rows, file, 0, None, 0);
}

/// The line of titles is no row.
pub proof fn law_titles_are_skipped(title: Seq<char>, row: Seq<char>)
    requires
        !title.contains('\n'),
        !row.contains('\n'),
        row.len() > 0,
    ensures
        rows_of(title + seq!['\n'] + row) == seq![row],
        rows_of(title + seq!['\n'] + row + seq!['\n']) == seq![row],
{
    lemma_line(title, row);
    lemma_no_char(row, '\n');
    assert(lines(row) == seq![row]);
    let all = lines(title + seq!['\n'] + row);
    assert(all =~= seq![title, row]);
    assert(all.skip(1) =~= seq![row]);
    let rest = row + seq!['\n'];
    assert(title + seq!['\n'] + row + seq!['\n'] =~= title + seq!['\n'] + rest);
    lemma_line(title, rest);
    assert(row + seq!['\n'] + Seq::<char>::empty() =~= rest);
    lemma_line(row, Seq::empty());
    lemma_no_char(Seq::empty(), '\n');
    assert(lines(Seq::empty()) == seq![Seq::<char>::empty()]);
    let every = lines(title + seq!['\n'] + rest);
    assert(every =~= seq![title, row, Seq::empty()]);
    assert(every.drop_last().skip(1) =~= seq![row]);
}

proof fn lemma_line(a: Seq<char>, b: Seq<char>)
    requires
        !a.contains('\n'),
    ensures
        lines(a + seq!['\n'] + b) == seq![a] + lines(b),
{
    let s = a + seq!['\n'] + b;
    let i = a.len() as int;
    assert forall|j: int| 0 <= j < i implies #[trigger] s[j] != '\n' by {
        assert(s[j] == a[j]);
    }
    lemma_first_char(s, '\n', 0, i);
    assert(s.take(i) =~= a);
    assert(s.subrange(i + 1, s.len() as int) =~= b);
}

/// A logger with the listed hash is embedded, and one that the list does not know;
/// one with another hash only where it was pinned and the check was waived.
pub proof fn law_hashes_decide(
    listed: &str,
    actual: &str,
    known: HashCheck,
    unknown: HashCheck,
    pinned: bool,
    waived: bool,
    first: bool,
    second: bool,
)
    requires
        call_ensures(check_hash, (Some(listed), actual), known),
        call_ensures(check_hash, (None::<&str>, actual), unknown),
        call_ensures(may_embed, (known, pinned, waived), first),
        call_ensures(may_embed, (unknown, pinned, waived), second),
    ensures
        known is Matches <==> listed@ == actual@,
        known is Differs <==> listed@ != actual@,
        unknown is NotListed,
        listed@ == actual@ ==> first,
        listed@ != actual@ ==> first == (pinned && waived),
        second,
{
}

/// Each kind of machine has its own file.
pub proof fn law_logger_files()
    ensures
        file_for("x86_64"@) == Some("liblogger_x64.so"@),
        file_for("x86"@) == Some("liblogger_x86.so"@),
        file_for("aarch64"@) == Some("liblogger_arm64.so"@),
        file_for("arm"@) == Some("liblogger_arm32.so"@),
        file_for("riscv64"@) is None,
{
    reveal_strlit("x86_64");
    reveal_strlit("x86");
    reveal_strlit("aarch64");
    reveal_strlit("arm");
    reveal_strlit("riscv64");
    assert("x86_64"@.len() == 6 && "x86"@.len() == 3 && "aarch64"@.len() == 7);
    assert("arm"@.len() == 3 && "riscv64"@.len() == 7);
    assert("x86"@[0] != "arm"@[0] && "aarch64"@[0] != "riscv64"@[0]);
}

} // verus!
