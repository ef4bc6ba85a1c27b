//! Node version preflight: does the runtime that will execute `dsh web`
//! satisfy upstream's `engines.node` range? Parsing and matching of the
//! range, and the report the UI shows.

use vstd::prelude::*;
use crate::text::{
    char_is_digit, chars_of, concat_str, decimal, eq_chars, extend, has_prefix, is_digit, slice_copy,
    string_of, trim, trim_end, trim_start, trimmed,
};

verus! {

/// Upstream's hard runtime requirement (`engines.node`).
pub const REQUIRED_ENGINE: &'static str = "^22.19.0 || >=24.0.0";

/// A `major.minor.patch` triple.
#[derive(Debug, Clone, Copy, PartialEq, Eq, Structural)]
pub struct Version {
    pub major: u32,
    pub minor: u32,
    pub patch: u32,
}

/// Ordering of two versions.
#[derive(Debug, Clone, Copy, PartialEq, Eq, Structural)]
pub enum Order {
    Less,
    Equal,
    Greater,
}

/// `s` without its leading `'v'`s (`trim_start_matches('v')`).
pub open spec fn strip_vs(s: Seq<char>) -> Seq<char>
    decreases s.len(),
{
    if s.len() > 0 && s[0] == 'v' {
        strip_vs(s.drop_first())
    } else {
        s
    }
}

/// The leading run of digits and dots.
pub open spec fn numeric_head(s: Seq<char>) -> Seq<char>
    decreases s.len(),
{
    if s.len() > 0 && (is_digit(s[0]) || s[0] == '.') {
        seq![s[0]] + numeric_head(s.drop_first())
    } else {
        seq![]
    }
}

/// `split('.')` with the empty pieces dropped, `cur` being the piece in
/// progress.
pub open spec fn dot_parts_acc(s: Seq<char>, cur: Seq<char>) -> Seq<Seq<char>>
    decreases s.len(),
{
    let done: Seq<Seq<char>> = if cur.len() > 0 {
        seq![cur]
    } else {
        seq![]
    };
    if s.len() == 0 {
        done
    } else if s[0] == '.' {
        done + dot_parts_acc(s.drop_first(), seq![])
    } else {
        dot_parts_acc(s.drop_first(), cur.push(s[0]))
    }
}

pub open spec fn dot_parts(s: Seq<char>) -> Seq<Seq<char>> {
    dot_parts_acc(s, seq![])
}

/// The number a run of ASCII digits spells.
pub open spec fn num_value(s: Seq<char>) -> nat
    decreases s.len(),
{
    if s.len() == 0 {
        0
    } else {
        num_value(s.drop_last()) * 10 + ((s.last() as u32) - ('0' as u32)) as nat
    }
}

pub open spec fn fits_u32(n: nat) -> bool {
    n <= u32::MAX
}

/// The version a raw string names: surrounding whitespace and leading `v`s
/// dropped, then the leading digits-and-dots run split at `.`; major and minor
/// are required, a missing or oversized patch counts as 0; any suffix is
/// ignored. `None` when major or minor is missing or does not fit a `u32`.
pub open spec fn parse_version_spec(raw: Seq<char>) -> Option<Version> {
    let head = numeric_head(strip_vs(trim(raw)));
    let ps = dot_parts(head);
    if head.len() == 0 || ps.len() < 2 || !fits_u32(num_value(ps[0])) || !fits_u32(num_value(ps[1])) {
        None
    } else {
        Some(
            Version {
                major: num_value(ps[0]) as u32,
                minor: num_value(ps[1]) as u32,
                patch: if ps.len() >= 3 && fits_u32(num_value(ps[2])) {
                    num_value(ps[2]) as u32
                } else {
                    0
                },
            },
        )
    }
}

/// Lexicographic order on (major, minor, patch).
pub open spec fn compare_spec(a: Version, b: Version) -> Order {
    if a.major != b.major {
        if a.major < b.major { Order::Less } else { Order::Greater }
    } else if a.minor != b.minor {
        if a.minor < b.minor { Order::Less } else { Order::Greater }
    } else if a.patch != b.patch {
        if a.patch < b.patch { Order::Less } else { Order::Greater }
    } else {
        Order::Equal
    }
}

/// `spec.split("||")`, `cur` being the clause in progress.
pub open spec fn clauses_acc(s: Seq<char>, cur: Seq<char>) -> Seq<Seq<char>>
    decreases s.len(),
{
    if s.len() == 0 {
        seq![cur]
    } else if s.len() >= 2 && s[0] == '|' && s[1] == '|' {
        seq![cur] + clauses_acc(s.skip(2), seq![])
    } else {
        clauses_acc(s.drop_first(), cur.push(s[0]))
    }
}

/// The `||`-separated clauses of a range.
pub open spec fn clauses(s: Seq<char>) -> Seq<Seq<char>> {
    clauses_acc(s, seq![])
}

/// One trimmed clause: `>=x.y.z`, `>x.y.z`, `^x.y.z` (same major, not below),
/// or a bare version (exact match). Empty or unparsable clauses fail.
pub open spec fn clause_spec(v: Version, clause: Seq<char>) -> bool {
    let c = trim(clause);
    if c.len() == 0 {
        false
    } else if c.len() >= 2 && c[0] == '>' && c[1] == '=' {
        match parse_version_spec(trim(c.skip(2))) {
            Some(min) => compare_spec(v, min) != Order::Less,
            None => false,
        }
    } else if c[0] == '>' {
        match parse_version_spec(trim(c.skip(1))) {
            Some(min) => compare_spec(v, min) == Order::Greater,
            None => false,
        }
    } else if c[0] == '^' {
        match parse_version_spec(trim(c.skip(1))) {
            Some(min) => v.major == min.major && compare_spec(v, min) != Order::Less,
            None => false,
        }
    } else {
        match parse_version_spec(c) {
            Some(t) => compare_spec(v, t) == Order::Equal,
            None => false,
        }
    }
}

/// Whether `version` satisfies the `||`-joined range `spec`; an unparsable
/// version fails closed.
pub open spec fn engine_spec(version: Seq<char>, spec: Seq<char>) -> bool {
    match parse_version_spec(version) {
        None => false,
        Some(v) => exists|i: int| 0 <= i < clauses(spec).len() && clause_spec(v, #[trigger] clauses(spec)[i]),
    }
}

fn strip_vs_idx(s: &[char]) -> (n: usize)
    ensures
        n <= s@.len(),
        s@.skip(n as int) == strip_vs(s@),
{
    let mut j: usize = 0;
    assert(s@.skip(0) =~= s@);
    while j < s.len() && s[j] == 'v'
        invariant
            j <= s@.len(),
            strip_vs(s@) == strip_vs(s@.skip(j as int)),
        decreases s@.len() - j,
    {
        assert(s@.skip(j as int).drop_first() =~= s@.skip(j + 1));
        j += 1;
    }
    assert(j < s@.len() ==> s@.skip(j as int)[0] == s@[j as int]);
    j
}

proof fn lemma_numeric_head_take(s: Seq<char>, i: int)
    requires
        0 <= i <= s.len(),
        forall|j: int| 0 <= j < i ==> is_digit(#[trigger] s[j]) || s[j] == '.',
        i == s.len() || !(is_digit(s[i]) || s[i] == '.'),
    ensures
        numeric_head(s) == s.take(i),
    decreases i,
{
    if i > 0 {
        assert forall|j: int| 0 <= j < i - 1 implies is_digit(#[trigger] s.drop_first()[j])
            || s.drop_first()[j] == '.' by {
            assert(s.drop_first()[j] == s[j + 1]);
        }
        lemma_numeric_head_take(s.drop_first(), i - 1);
        assert(seq![s[0]] + s.drop_first().take(i - 1) =~= s.take(i));
    } else {
        assert(s.take(0) =~= Seq::<char>::empty());
    }
}

/// Value of the digit run `s[lo..hi]`, or `None` when above `u32::MAX`.
fn value_of(s: &[char], lo: usize, hi: usize) -> (r: Option<u32>)
    requires
        lo <= hi <= s@.len(),
        forall|j: int| lo <= j < hi ==> is_digit(#[trigger] s@[j]),
    ensures
        match r {
            Some(v) => fits_u32(num_value(s@.subrange(lo as int, hi as int))) && v == num_value(
                s@.subrange(lo as int, hi as int),
            ),
            None => !fits_u32(num_value(s@.subrange(lo as int, hi as int))),
        },
{
    let mut v: u64 = 0;
    let mut i = lo;
    while i < hi
        invariant
            lo <= i <= hi <= s@.len(),
            forall|j: int| lo <= j < hi ==> is_digit(#[trigger] s@[j]),
            v == num_value(s@.subrange(lo as int, i as int)),
            v <= u32::MAX,
        decreases hi - i,
    {
        assert(s@.subrange(lo as int, i + 1).drop_last() =~= s@.subrange(lo as int, i as int));
        assert(is_digit(s@[i as int]));
        let d = (s[i] as u32) - ('0' as u32);
        let w = v * 10 + (d as u64);
        if w > 0xffff_ffff {
            proof {
                lemma_num_value_grows(s@.subrange(lo as int, hi as int), i + 1 - lo);
                assert(s@.subrange(lo as int, hi as int).take(i + 1 - lo) =~= s@.subrange(
                    lo as int,
                    i + 1,
                ));
            }
            return None;
        }
        v = w;
        i += 1;
    }
    Some(v as u32)
}

proof fn lemma_num_value_grows(s: Seq<char>, i: int)
    requires
        0 <= i <= s.len(),
        forall|j: int| 0 <= j < s.len() ==> is_digit(#[trigger] s[j]),
    ensures
        num_value(s.take(i)) <= num_value(s),
    decreases s.len() - i,
{
    if i < s.len() {
        lemma_num_value_grows(s, i + 1);
        assert(s.take(i + 1).drop_last() =~= s.take(i));
    } else {
        assert(s.take(i) =~= s);
    }
}

/// Parses a Node version string such as `v22.19.0`.
pub fn parse_version(raw: &str) -> (r: Option<Version>)
    ensures
        r == parse_version_spec(raw@),
{
    let c = chars_of(raw);
    let t = trimmed(c.as_slice());
    let sv = strip_vs_idx(t.as_slice());
    let s = slice_copy(t.as_slice(), sv, t.len());
    assert(s@ =~= strip_vs(trim(raw@)));
    let mut end: usize = 0;
    while end < s.len() && (char_is_digit(s[end]) || s[end] == '.')
        invariant
            end <= s@.len(),
            forall|j: int| 0 <= j < end ==> is_digit(#[trigger] s@[j]) || s@[j] == '.',
        decreases s@.len() - end,
    {
        end += 1;
    }
    proof {
        lemma_numeric_head_take(s@, end as int);
    }
    let head = slice_copy(s.as_slice(), 0, end);
    assert(head@ =~= numeric_head(strip_vs(trim(raw@))));
    if end == 0 {
        return None;
    }
    let parts = split_dots(head.as_slice());
    if parts.len() < 2 {
        return None;
    }
    let major = match parts_value(&parts, 0) {
        Some(v) => v,
        None => return None,
    };
    let minor = match parts_value(&parts, 1) {
        Some(v) => v,
        None => return None,
    };
    let patch = if parts.len() >= 3 {
        match parts_value(&parts, 2) {
            Some(v) => v,
            None => 0,
        }
    } else {
        0
    };
    Some(Version { major, minor, patch })
}

pub open spec fn all_digits(s: Seq<char>) -> bool {
    forall|j: int| 0 <= j < s.len() ==> is_digit(#[trigger] s[j])
}

pub open spec fn part_views(ps: Seq<Vec<char>>) -> Seq<Seq<char>> {
    ps.map_values(|p: Vec<char>| p@)
}

fn parts_value(parts: &Vec<Vec<char>>, i: usize) -> (r: Option<u32>)
    requires
        i < parts@.len(),
        all_digits(parts@[i as int]@),
    ensures
        match r {
            Some(v) => fits_u32(num_value(parts@[i as int]@)) && v == num_value(parts@[i as int]@),
            None => !fits_u32(num_value(parts@[i as int]@)),
        },
{
    let p = &parts[i];
    let r = value_of(p.as_slice(), 0, p.len());
    assert(p@.subrange(0, p@.len() as int) =~= p@);
    r
}

/// `split('.')` without the empty pieces, over a run of digits and dots.
fn split_dots(s: &[char]) -> (ps: Vec<Vec<char>>)
    requires
        forall|j: int| 0 <= j < s@.len() ==> is_digit(#[trigger] s@[j]) || s@[j] == '.',
    ensures
        part_views(ps@) == dot_parts(s@),
        forall|k: int| 0 <= k < ps@.len() ==> all_digits(#[trigger] ps@[k]@),
{
    let mut out: Vec<Vec<char>> = Vec::new();
    let mut cur: Vec<char> = Vec::new();
    let mut i: usize = 0;
    assert(s@.skip(0) =~= s@);
    assert(part_views(out@) + dot_parts_acc(s@.skip(0), cur@) =~= dot_parts(s@));
    while i < s.len()
        invariant
            i <= s@.len(),
            forall|j: int| 0 <= j < s@.len() ==> is_digit(#[trigger] s@[j]) || s@[j] == '.',
            part_views(out@) + dot_parts_acc(s@.skip(i as int), cur@) == dot_parts(s@),
            all_digits(cur@),
            forall|k: int| 0 <= k < out@.len() ==> all_digits(#[trigger] out@[k]@),
        decreases s@.len() - i,
    {
        let ghost rest = s@.skip(i as int);
        assert(rest.drop_first() =~= s@.skip(i + 1));
        if s[i] == '.' {
            let ghost before = part_views(out@);
            if cur.len() > 0 {
                let ghost c = cur@;
                out.push(cur);
                assert(part_views(out@) =~= before + seq![c]);
            } else {
                assert(part_views(out@) =~= before + Seq::<Seq<char>>::empty());
            }
            cur = Vec::new();
        } else {
            cur.push(s[i]);
        }
        i += 1;
    }
    assert(s@.skip(i as int) =~= Seq::<char>::empty());
    if cur.len() > 0 {
        let ghost before = part_views(out@);
        let ghost c = cur@;
        out.push(cur);
        assert(part_views(out@) =~= before + seq![c]);
    } else {
        assert(part_views(out@) =~= part_views(out@) + Seq::<Seq<char>>::empty());
    }
    out
}

/// Lexicographic comparison of two versions.
pub fn compare(a: &Version, b: &Version) -> (o: Order)
    ensures
        o == compare_spec(*a, *b),
{
    if a.major != b.major {
        if a.major < b.major { Order::Less } else { Order::Greater }
    } else if a.minor != b.minor {
        if a.minor < b.minor { Order::Less } else { Order::Greater }
    } else if a.patch != b.patch {
        if a.patch < b.patch { Order::Less } else { Order::Greater }
    } else {
        Order::Equal
    }
}

fn parse_rest(c: &Vec<char>, from: usize) -> (r: Option<Version>)
    requires
        from <= c@.len(),
    ensures
        r == parse_version_spec(trim(c@.skip(from as int))),
{
    let rest = slice_copy(c.as_slice(), from, c.len());
    assert(rest@ =~= c@.skip(from as int));
    let rt = trimmed(rest.as_slice());
    let s = string_of(rt.as_slice());
    parse_version(s.as_str())
}

/// Whether version `v` satisfies one clause of a range.
pub fn clause_satisfies(v: &Version, clause: &str) -> (b: bool)
    ensures
        b == clause_spec(*v, clause@),
{
    let c = trimmed(chars_of(clause).as_slice());
    if c.len() == 0 {
        return false;
    }
    if c.len() >= 2 && c[0] == '>' && c[1] == '=' {
        return match parse_rest(&c, 2) {
            Some(min) => compare(v, &min) != Order::Less,
            None => false,
        };
    }
    if c[0] == '>' {
        return match parse_rest(&c, 1) {
            Some(min) => compare(v, &min) == Order::Greater,
            None => false,
        };
    }
    if c[0] == '^' {
        return match parse_rest(&c, 1) {
            Some(min) => v.major == min.major && compare(v, &min) != Order::Less,
            None => false,
        };
    }
    let cs = string_of(c.as_slice());
    match parse_version(cs.as_str()) {
        Some(t) => compare(v, &t) == Order::Equal,
        None => false,
    }
}

/// The `||`-separated clauses of a range, in order.
fn split_clauses(s: &[char]) -> (cs: Vec<Vec<char>>)
    ensures
        part_views(cs@) == clauses(s@),
{
    let mut out: Vec<Vec<char>> = Vec::new();
    let mut cur: Vec<char> = Vec::new();
    let mut i: usize = 0;
    assert(s@.skip(0) =~= s@);
    assert(part_views(out@) + clauses_acc(s@.skip(0), cur@) =~= clauses(s@));
    while i < s.len()
        invariant
            i <= s@.len(),
            part_views(out@) + clauses_acc(s@.skip(i as int), cur@) == clauses(s@),
        decreases s@.len() - i,
    {
        let ghost rest = s@.skip(i as int);
        if i + 1 < s.len() && s[i] == '|' && s[i + 1] == '|' {
            assert(rest.skip(2) =~= s@.skip(i + 2));
            let ghost before = part_views(out@);
            let ghost c = cur@;
            out.push(cur);
            assert(part_views(out@) =~= before + seq![c]);
            cur = Vec::new();
            i += 2;
        } else {
            assert(rest.drop_first() =~= s@.skip(i + 1));
            cur.push(s[i]);
            i += 1;
        }
    }
    assert(s@.skip(i as int) =~= Seq::<char>::empty());
    let ghost before = part_views(out@);
    let ghost c = cur@;
    out.push(cur);
    assert(part_views(out@) =~= before + seq![c]);
    out
}

/// Whether `version` satisfies the range `spec` (`^x.y.z` / `>=x.y.z` / `>`
/// / exact clauses joined by `||`; whitespace around clauses tolerated).
/// Empty or unparsable input fails closed.
pub fn engine_satisfies(version: &str, spec: &str) -> (b: bool)
    ensures
        b == engine_spec(version@, spec@),
{
    let parsed = match parse_version(version) {
        Some(v) => v,
        None => return false,
    };
    let cs = split_clauses(chars_of(spec).as_slice());
    let ghost cl = clauses(spec@);
    assert(cl.len() == cs@.len());
    let mut i: usize = 0;
    while i < cs.len()
        invariant
            part_views(cs@) == cl,
            cl == clauses(spec@),
            cl.len() == cs@.len(),
            parse_version_spec(version@) == Some(parsed),
            i <= cs@.len(),
            forall|j: int| 0 <= j < i ==> !clause_spec(parsed, #[trigger] cl[j]),
        decreases cs@.len() - i,
    {
        let text = string_of(cs[i].as_slice());
        assert(cl[i as int] == cs@[i as int]@);
        if clause_satisfies(&parsed, text.as_str()) {
            assert(clause_spec(parsed, clauses(spec@)[i as int]));
            return true;
        }
        i += 1;
    }
    false
}


/// `spec.split("||")` splits `a ++ "||" ++ b` into the clauses of `a` and
/// then those of `b`, provided `a` does not end in `'|'`.
proof fn lemma_clauses_join(a: Seq<char>, b: Seq<char>, cur: Seq<char>)
    requires
        a.len() == 0 || a.last() != '|',
    ensures
        clauses_acc(a + seq!['|', '|'] + b, cur) == clauses_acc(a, cur) + clauses(b),
    decreases a.len(),
{
    let s = a + seq!['|', '|'] + b;
    if a.len() == 0 {
        assert(s =~= seq!['|', '|'] + b);
        assert(s.skip(2) =~= b);
    } else if a.len() >= 2 && a[0] == '|' && a[1] == '|' {
        assert(s.skip(2) =~= a.skip(2) + seq!['|', '|'] + b);
        lemma_clauses_join(a.skip(2), b, seq![]);
        assert(seq![cur] + (clauses_acc(a.skip(2), seq![]) + clauses(b)) =~= seq![cur]
            + clauses_acc(a.skip(2), seq![]) + clauses(b));
    } else {
        assert(s.drop_first() =~= a.drop_first() + seq!['|', '|'] + b);
        assert(s[0] == a[0]);
        if a.len() == 1 {
            assert(s[1] == '|');
            assert(a[0] != '|');
        } else {
            assert(s[1] == a[1]);
        }
        lemma_clauses_join(a.drop_first(), b, cur.push(a[0]));
    }
}

/// Joining two ranges with `||` accepts exactly the versions that either
/// range accepts (when the left range does not itself end in `'|'`).
pub proof fn lemma_or_range(version: Seq<char>, a: Seq<char>, b: Seq<char>)
    requires
        a.len() == 0 || a.last() != '|',
    ensures
        engine_spec(version, a + seq!['|', '|'] + b) == (engine_spec(version, a) || engine_spec(
            version,
            b,
        )),
{
    lemma_clauses_join(a, b, seq![]);
    let ca = clauses(a);
    let cb = clauses(b);
    let cs = clauses(a + seq!['|', '|'] + b);
    assert(cs == ca + cb);
    if let Some(v) = parse_version_spec(version) {
        if engine_spec(version, a + seq!['|', '|'] + b) {
            let i = choose|i: int| 0 <= i < cs.len() && clause_spec(v, #[trigger] cs[i]);
            if i < ca.len() {
                assert(cs[i] == ca[i]);
            } else {
                assert(cs[i] == cb[i - ca.len()]);
            }
        }
        if engine_spec(version, a) {
            let i = choose|i: int| 0 <= i < ca.len() && clause_spec(v, #[trigger] ca[i]);
            assert(cs[i] == ca[i]);
        }
        if engine_spec(version, b) {
            let i = choose|i: int| 0 <= i < cb.len() && clause_spec(v, #[trigger] cb[i]);
            assert(cs[ca.len() + i] == cb[i]);
        }
    }
}

/// An empty range accepts no version (fail closed).
pub proof fn lemma_empty_range_rejects(version: Seq<char>)
    ensures
        !engine_spec(version, seq![]),
{
    let cs = clauses(Seq::<char>::empty());
    assert(cs =~= seq![Seq::<char>::empty()]);
    assert(trim(Seq::<char>::empty()) =~= Seq::<char>::empty()) by {
        reveal_with_fuel(crate::text::trim_end, 1);
    }
}


/// Which binary the probed version came from.
#[derive(Debug, Clone, Copy, PartialEq, Eq, Structural)]
pub enum VersionSource {
    /// First token of `DSH_CLIENT_BIN`: the node binary that will actually
    /// run `dsh web`, since it overrides `dsh`/`npx` on PATH.
    OverrideBin,
    /// First `node` found on PATH (used when no override is set).
    PathNode,
    /// Neither produced a usable version string.
    Unavailable,
}

/// Snapshot of the local toolchain's fitness for running `dsh web`.
#[derive(Debug, Clone)]
pub struct PreflightReport {
    /// True iff the probed Node satisfies [`REQUIRED_ENGINE`] and the `dsh`
    /// command is reachable. The UI gates the supervisor on this.
    pub engine_ok: bool,
    /// Raw `node -p "process.version"` output, e.g. `"v22.19.0"`; `None` when
    /// probing failed.
    pub version: Option<String>,
    /// Which binary the version came from.
    pub version_source: VersionSource,
    /// Path of the first `node` on PATH, for diagnostics.
    pub node_path: Option<String>,
    /// The engine range tested against (always [`REQUIRED_ENGINE`]).
    pub required: String,
    /// Whether the planned `dsh` command resolves to a runnable binary.
    pub dsh_reachable: bool,
    /// Localized failure summary shown above the steps block.
    pub failure: Option<String>,
}

/// The binary to probe for its version, and where it came from: the
/// override's first token when it is not blank, else the first `node` on
/// PATH, else nothing.
pub fn probe_target(bin_override_first_token: Option<&str>, path_node: Option<&str>) -> (r: (
    Option<String>,
    VersionSource,
))
    ensures
        match bin_override_first_token {
            Some(b) if trim(b@).len() > 0 => r.0 matches Some(t) && t@ == b@ && r.1
                == VersionSource::OverrideBin,
            _ => match path_node {
                Some(p) => r.0 matches Some(t) && t@ == p@ && r.1 == VersionSource::PathNode,
                None => r.0 is None && r.1 == VersionSource::Unavailable,
            },
        },
{
    if let Some(bin) = bin_override_first_token {
        if trimmed(chars_of(bin).as_slice()).len() > 0 {
            return (Some(bin.to_owned()), VersionSource::OverrideBin);
        }
    }
    match path_node {
        Some(p) => (Some(p.to_owned()), VersionSource::PathNode),
        None => (None, VersionSource::Unavailable),
    }
}

/// The failure summary for a Node that could not be accepted.
pub open spec fn failure_text(version: Option<Seq<char>>, source: VersionSource) -> Seq<char> {
    match version {
        Some(v) => "检测到 Node "@ + v + "，不满足上游要求 "@ + REQUIRED_ENGINE@
            + "；请用 nvm-windows 切换到 22.19+ 或 24+ 后重启应用"@,
        None => if source == VersionSource::Unavailable {
            "未在 PATH 中找到 node；请先安装 Node 22.19+ 或 24+，或设置 DSH_CLIENT_BIN 指向已有的 node.exe"@
        } else {
            "虽然找到了 node 二进制，但无法读取其版本；请确认 node 可正常执行（`node -v`），要求 "@
                + REQUIRED_ENGINE@
        },
    }
}

/// The failure summary when `dsh` cannot be reached.
pub open spec fn unreachable_text() -> Seq<char> {
    "无法在 PATH 中找到 dsh 或 npx；请安装 @deepseek-ai/dsh 或确保 npx 可用"@
}

pub open spec fn opt_view(o: Option<&str>) -> Option<Seq<char>> {
    match o {
        Some(s) => Some(s@),
        None => None,
    }
}

pub open spec fn opt_string_view(o: Option<String>) -> Option<Seq<char>> {
    match o {
        Some(s) => Some(s@),
        None => None,
    }
}

/// The localized failure summary for a Node version that is missing or does
/// not satisfy [`REQUIRED_ENGINE`].
pub fn build_failure_message(version: Option<&str>, source: VersionSource) -> (r: String)
    ensures
        r@ == failure_text(opt_view(version), source),
{
    match version {
        Some(v) => {
            let mut m = String::from_str("检测到 Node ");
            m.append(v);
            m.append("，不满足上游要求 ");
            m.append(REQUIRED_ENGINE);
            m.append("；请用 nvm-windows 切换到 22.19+ 或 24+ 后重启应用");
            m
        },
        None => {
            if source == VersionSource::Unavailable {
                String::from_str(
                    "未在 PATH 中找到 node；请先安装 Node 22.19+ 或 24+，或设置 DSH_CLIENT_BIN 指向已有的 node.exe",
                )
            } else {
                let mut m = String::from_str(
                    "虽然找到了 node 二进制，但无法读取其版本；请确认 node 可正常执行（`node -v`），要求 ",
                );
                m.append(REQUIRED_ENGINE);
                m
            }
        },
    }
}

/// Whether the planned `dsh` command is reachable: a program other than the
/// bare `dsh` name is taken as given; the bare name needs `dsh` or `npx` on
/// PATH.
pub open spec fn dsh_reachable_spec(dsh_program: Seq<char>, dsh_on_path: bool, npx_on_path: bool) -> bool {
    dsh_program != "dsh"@ || dsh_on_path || npx_on_path
}

/// Assembles the report from what the probe found: the version string the
/// probed binary printed (if any), where it came from, the first `node` on
/// PATH, the planned `dsh` program, and whether `dsh` / `npx` are on PATH.
pub fn preflight_report(
    version: Option<String>,
    version_source: VersionSource,
    node_path: Option<String>,
    dsh_program: &str,
    dsh_on_path: bool,
    npx_on_path: bool,
) -> (r: PreflightReport)
    ensures
        ({
            let node_ok = match version {
                Some(v) => engine_spec(v@, REQUIRED_ENGINE@),
                None => false,
            };
            let reachable = dsh_reachable_spec(dsh_program@, dsh_on_path, npx_on_path);
            &&& r.engine_ok == (node_ok && reachable)
            &&& r.dsh_reachable == reachable
            &&& opt_string_view(r.version) == opt_string_view(version)
            &&& r.version_source == version_source
            &&& opt_string_view(r.node_path) == opt_string_view(node_path)
            &&& r.required@ == REQUIRED_ENGINE@
            &&& !node_ok ==> (r.failure matches Some(f) && f@ == failure_text(
                opt_string_view(version),
                version_source,
            ))
            &&& (node_ok && !reachable) ==> (r.failure matches Some(f) && f@ == unreachable_text())
            &&& (node_ok && reachable) ==> r.failure is None
        }),
{
    let node_ok = match &version {
        Some(v) => engine_satisfies(v.as_str(), REQUIRED_ENGINE),
        None => false,
    };
    let is_bare_dsh = eq_chars(chars_of(dsh_program).as_slice(), chars_of("dsh").as_slice());
    let reachable = !is_bare_dsh || dsh_on_path || npx_on_path;
    let failure = if !node_ok {
        let m = match &version {
            Some(v) => build_failure_message(Some(v.as_str()), version_source),
            None => build_failure_message(None, version_source),
        };
        Some(m)
    } else if !reachable {
        Some(String::from_str("无法在 PATH 中找到 dsh 或 npx；请安装 @deepseek-ai/dsh 或确保 npx 可用"))
    } else {
        None
    };
    PreflightReport {
        engine_ok: node_ok && reachable,
        version,
        version_source,
        node_path,
        required: String::from_str(REQUIRED_ENGINE),
        dsh_reachable: reachable,
        failure,
    }
}


/// A version string that does not parse satisfies no range (fail closed).
pub proof fn lemma_unparsable_version_rejects(version: Seq<char>, spec: Seq<char>)
    requires
        parse_version_spec(version) is None,
    ensures
        !engine_spec(version, spec),
{
}


/// `a` is at or above `b` in the order of (major, minor, patch), compared
/// left to right.
pub open spec fn at_or_above(a: Version, b: Version) -> bool {
    ||| a.major > b.major
    ||| (a.major == b.major && a.minor > b.minor)
    ||| (a.major == b.major && a.minor == b.minor && a.patch >= b.patch)
}

/// What each kind of clause accepts, on the whole (major, minor, patch)
/// triple: `>=x.y.z` the versions at or above x.y.z; `>x.y.z` those strictly
/// above; `^x.y.z` those at or above x.y.z with the same major; a bare
/// `x.y.z` exactly that version. Whitespace around the clause and after the
/// operator does not matter.
pub proof fn lemma_clause_meaning(v: Version, clause: Seq<char>, bound: Version)
    ensures
        ({
            let c = trim(clause);
            &&& (c.len() >= 2 && c[0] == '>' && c[1] == '=' && parse_version_spec(trim(c.skip(2)))
                == Some(bound)) ==> (clause_spec(v, clause) <==> at_or_above(v, bound))
            &&& (c.len() >= 1 && c[0] == '>' && !(c.len() >= 2 && c[1] == '=') && parse_version_spec(
                trim(c.skip(1)),
            ) == Some(bound)) ==> (clause_spec(v, clause) <==> (at_or_above(v, bound) && v != bound))
            &&& (c.len() >= 1 && c[0] == '^' && parse_version_spec(trim(c.skip(1))) == Some(bound)) ==> (
            clause_spec(v, clause) <==> (v.major == bound.major && at_or_above(v, bound)))
            &&& (c.len() >= 1 && c[0] != '>' && c[0] != '^' && parse_version_spec(c) == Some(bound)) ==> (
            clause_spec(v, clause) <==> v == bound)
        }),
{
}


proof fn lemma_digit_value(d: nat)
    requires
        d < 10,
    ensures
        is_digit(crate::text::digit_char(d)),
        ((crate::text::digit_char(d) as u32) - ('0' as u32)) as nat == d,
{
}

proof fn lemma_decimal_digits(n: nat)
    ensures
        decimal(n).len() > 0,
        all_digits(decimal(n)),
        num_value(decimal(n)) == n,
    decreases n,
{
    if n < 10 {
        lemma_digit_value(n);
        let d = decimal(n);
        assert(d.drop_last() =~= Seq::<char>::empty());
        assert(d.last() == crate::text::digit_char(n));
        assert(num_value(d) == num_value(d.drop_last()) * 10 + ((d.last() as u32) - ('0' as u32)) as nat);
        assert(num_value(Seq::<char>::empty()) == 0);
    } else {
        lemma_decimal_digits(n / 10);
        lemma_digit_value(n % 10);
        let d = decimal(n);
        assert(d.drop_last() =~= decimal(n / 10));
        assert(d.last() == crate::text::digit_char(n % 10));
        assert((n / 10) * 10 + n % 10 == n) by (nonlinear_arith);
        assert(num_value(d) == num_value(d.drop_last()) * 10 + ((d.last() as u32) - ('0' as u32)) as nat);
        assert forall|i: int| 0 <= i < d.len() implies is_digit(#[trigger] d[i]) by {
            if i < d.len() - 1 {
                assert(d[i] == decimal(n / 10)[i]);
            }
        }
    }
}

proof fn lemma_dot_parts_run(a: Seq<char>, tail: Seq<char>, cur: Seq<char>)
    requires
        forall|i: int| 0 <= i < a.len() ==> #[trigger] a[i] != '.',
    ensures
        dot_parts_acc(a + tail, cur) == dot_parts_acc(tail, cur + a),
    decreases a.len(),
{
    if a.len() == 0 {
        assert(a + tail =~= tail);
        assert(cur + a =~= cur);
    } else {
        assert((a + tail)[0] == a[0]);
        assert((a + tail).drop_first() =~= a.drop_first() + tail);
        assert forall|i: int| 0 <= i < a.drop_first().len() implies #[trigger] a.drop_first()[i] != '.' by {
            assert(a.drop_first()[i] == a[i + 1]);
        }
        lemma_dot_parts_run(a.drop_first(), tail, cur.push(a[0]));
        assert(cur.push(a[0]) + a.drop_first() =~= cur + a);
    }
}

proof fn lemma_digits_no_dot(a: Seq<char>)
    requires
        all_digits(a),
    ensures
        forall|i: int| 0 <= i < a.len() ==> #[trigger] a[i] != '.' && a[i] != 'v' && !crate::text::is_ws(
            a[i],
        ),
{
}

proof fn lemma_printed_trimmed(dx: Seq<char>, dy: Seq<char>, dz: Seq<char>)
    requires
        dx.len() > 0,
        dz.len() > 0,
        all_digits(dx),
        all_digits(dy),
        all_digits(dz),
    ensures
        ({
            let text = dx + seq!['.'] + dy + seq!['.'] + dz;
            &&& trim(text) == text
            &&& trim(seq!['v'] + text) == seq!['v'] + text
            &&& strip_vs(text) == text
            &&& strip_vs(seq!['v'] + text) == text
        }),
{
    let text = dx + seq!['.'] + dy + seq!['.'] + dz;
    let vt = seq!['v'] + text;
    assert(text[0] == dx[0]);
    assert(is_digit(dx[0]));
    assert(text.last() == dz[dz.len() - 1]);
    assert(is_digit(dz[dz.len() - 1]));
    assert(trim_end(text) == text);
    assert(trim_start(text) == text);
    assert(vt.last() == text.last());
    assert(trim_end(vt) == vt);
    assert(trim_start(vt) == vt);
    assert(vt.drop_first() =~= text);
}

proof fn lemma_printed_head(dx: Seq<char>, dy: Seq<char>, dz: Seq<char>)
    requires
        all_digits(dx),
        all_digits(dy),
        all_digits(dz),
    ensures
        numeric_head(dx + seq!['.'] + dy + seq!['.'] + dz) == dx + seq!['.'] + dy + seq!['.'] + dz,
{
    let text = dx + seq!['.'] + dy + seq!['.'] + dz;
    assert forall|j: int| 0 <= j < text.len() implies is_digit(#[trigger] text[j]) || text[j] == '.' by {
        if j < dx.len() {
            assert(text[j] == dx[j]);
        } else if j > dx.len() && j < dx.len() + 1 + dy.len() {
            assert(text[j] == dy[j - dx.len() - 1]);
        } else if j > dx.len() + 1 + dy.len() {
            assert(text[j] == dz[j - dx.len() - 2 - dy.len()]);
        }
    }
    lemma_numeric_head_take(text, text.len() as int);
    assert(text.take(text.len() as int) =~= text);
}

proof fn lemma_printed_parts(dx: Seq<char>, dy: Seq<char>, dz: Seq<char>)
    requires
        dx.len() > 0,
        dy.len() > 0,
        dz.len() > 0,
        all_digits(dx),
        all_digits(dy),
        all_digits(dz),
    ensures
        dot_parts(dx + seq!['.'] + dy + seq!['.'] + dz) == seq![dx, dy, dz],
{
    lemma_digits_no_dot(dx);
    lemma_digits_no_dot(dy);
    lemma_digits_no_dot(dz);
    let text = dx + seq!['.'] + dy + seq!['.'] + dz;
    let t1 = seq!['.'] + dy + seq!['.'] + dz;
    let t2 = seq!['.'] + dz;
    let e = Seq::<char>::empty();
    assert(text =~= dx + t1);
    lemma_dot_parts_run(dx, t1, e);
    assert(e + dx =~= dx);
    assert(t1.drop_first() =~= dy + t2);
    lemma_dot_parts_run(dy, t2, e);
    assert(e + dy =~= dy);
    assert(t2.drop_first() =~= dz);
    assert(dz =~= dz + e);
    lemma_dot_parts_run(dz, e, e);
    assert(e + dz =~= dz);
    assert(dot_parts_acc(e, dz) == seq![dz]);
    assert(dot_parts_acc(t2, dy) == seq![dy] + dot_parts_acc(dz, e));
    assert(dot_parts_acc(t1, dx) == seq![dx] + dot_parts_acc(dy + t2, e));
    assert(dot_parts(text) =~= seq![dx, dy, dz]);
}

/// A version written out as `x.y.z` in decimal, with or without a leading
/// `v`, parses back to (x, y, z).
pub proof fn lemma_parse_printed_version(x: u32, y: u32, z: u32)
    ensures
        ({
            let text = decimal(x as nat) + seq!['.'] + decimal(y as nat) + seq!['.'] + decimal(z as nat);
            &&& parse_version_spec(text) == Some(Version { major: x, minor: y, patch: z })
            &&& parse_version_spec(seq!['v'] + text) == Some(Version { major: x, minor: y, patch: z })
        }),
{
    let dx = decimal(x as nat);
    let dy = decimal(y as nat);
    let dz = decimal(z as nat);
    lemma_decimal_digits(x as nat);
    lemma_decimal_digits(y as nat);
    lemma_decimal_digits(z as nat);
    lemma_printed_trimmed(dx, dy, dz);
    lemma_printed_head(dx, dy, dz);
    lemma_printed_parts(dx, dy, dz);
}

} // verus!
