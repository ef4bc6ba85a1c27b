//! Text-level managed lines in the user patch layer (`cordis.patch.yml`).
//!
//! The file may hold `!!js` expressions, so it is never parsed as YAML. Only
//! lines carrying our end-of-line marker are touched, and every write is an
//! explicit intent: drop all our blocks for the entry, then append exactly one.

use vstd::prelude::*;
use crate::text::{
    chars_of, concat_str, debug_quote, is_ws, debug_str, ends_with, eq_chars, extend, has_prefix, has_suffix,
    slice_copy, starts_with, string_of, trim, trim_end, trim_start, trimmed, trimmed_end, trimmed_start,
};

verus! {

/// End-of-line marker identifying every line this client owns.
pub const MARKER: &'static str = "# dsh-client";
/// First-write backup suffix, created once and never overwritten.
pub const BACKUP_SUFFIX: &'static str = ".dsh-client.bak";
/// Atomic-write scratch suffix, renamed over the target.
pub const TMP_SUFFIX: &'static str = ".dsh-client.tmp";

/// The characters of [`MARKER`].
pub open spec fn marker() -> Seq<char> {
    seq!['#', ' ', 'd', 's', 'h', '-', 'c', 'l', 'i', 'e', 'n', 't']
}

/// `"- id: "`, the head of a managed id line.
pub open spec fn id_head() -> Seq<char> {
    seq!['-', ' ', 'i', 'd', ':', ' ']
}

/// `"  disabled: "`, the head of a managed continuation line.
pub open spec fn disabled_head() -> Seq<char> {
    seq![' ', ' ', 'd', 'i', 's', 'a', 'b', 'l', 'e', 'd', ':', ' ']
}

/// `"- "`, the start of a fresh YAML list item.
pub open spec fn item_head() -> Seq<char> {
    seq!['-', ' ']
}

pub open spec fn two_spaces() -> Seq<char> {
    seq![' ', ' ']
}

pub open spec fn bool_text(b: bool) -> Seq<char> {
    if b {
        seq!['t', 'r', 'u', 'e']
    } else {
        seq!['f', 'a', 'l', 's', 'e']
    }
}

/// An entry id that keeps the two-line block shape: nonempty, no surrounding
/// whitespace, no line breaks, no `#`.
pub open spec fn entry_id_valid(id: Seq<char>) -> bool {
    &&& id.len() > 0
    &&& trim(id) == id
    &&& forall|i: int| 0 <= i < id.len() ==> #[trigger] id[i] != '\n' && id[i] != '\r' && id[i] != '#'
}

/// A line ending (modulo trailing whitespace) with our marker.
pub open spec fn is_marked(line: Seq<char>) -> bool {
    ends_with(trim_end(line), marker())
}

/// `- id: <entry_id>  # dsh-client`; spacing before the marker is free, the id
/// must match exactly.
pub open spec fn is_managed_id_line(line: Seq<char>, entry_id: Seq<char>) -> bool {
    let t = trim_end(line);
    &&& ends_with(t, marker())
    &&& trim_end(t.take(t.len() - marker().len())) == id_head() + entry_id
}

/// One of our marked lines that does not open a fresh `- ` item.
pub open spec fn is_continuation(line: Seq<char>) -> bool {
    is_marked(line) && !starts_with(trim_start(line), item_head())
}

/// `line` without one trailing `'\r'`.
pub open spec fn strip_cr(line: Seq<char>) -> Seq<char> {
    if line.len() > 0 && line.last() == '\r' {
        line.drop_last()
    } else {
        line
    }
}

/// `str::lines` on `s` with `cur` as the already-read part of the current line.
pub open spec fn lines_acc(s: Seq<char>, cur: Seq<char>) -> Seq<Seq<char>>
    decreases s.len(),
{
    if s.len() == 0 {
        if cur.len() == 0 {
            seq![]
        } else {
            seq![cur]
        }
    } else if s[0] == '\n' {
        seq![strip_cr(cur)] + lines_acc(s.drop_first(), seq![])
    } else {
        lines_acc(s.drop_first(), cur.push(s[0]))
    }
}

/// `str::lines`: split at `'\n'`, one `'\r'` dropped before each `'\n'`, no
/// empty last line.
pub open spec fn lines(s: Seq<char>) -> Seq<Seq<char>> {
    lines_acc(s, seq![])
}

/// The lines that survive: managed id lines of `entry_id` are dropped together
/// with the marked continuation lines right after them.
pub open spec fn kept_from(ls: Seq<Seq<char>>, entry_id: Seq<char>, dropping: bool) -> Seq<
    Seq<char>,
>
    decreases ls.len(),
{
    if ls.len() == 0 {
        seq![]
    } else if dropping && is_continuation(ls[0]) {
        kept_from(ls.drop_first(), entry_id, true)
    } else if is_managed_id_line(ls[0], entry_id) {
        kept_from(ls.drop_first(), entry_id, true)
    } else {
        seq![ls[0]] + kept_from(ls.drop_first(), entry_id, false)
    }
}

/// Every line followed by `'\n'` (`join("\n") + "\n"`, empty for no lines).
pub open spec fn unlines(ls: Seq<Seq<char>>) -> Seq<char>
    decreases ls.len(),
{
    if ls.len() == 0 {
        seq![]
    } else {
        ls[0] + seq!['\n'] + unlines(ls.drop_first())
    }
}

/// `- id: <entry_id>  # dsh-client`
pub open spec fn id_line(entry_id: Seq<char>) -> Seq<char> {
    id_head() + entry_id + two_spaces() + marker()
}

/// `  disabled: <disabled>  # dsh-client`
pub open spec fn disabled_line(disabled: bool) -> Seq<char> {
    disabled_head() + bool_text(disabled) + two_spaces() + marker()
}

/// The managed block written for one intent.
pub open spec fn block(entry_id: Seq<char>, disabled: bool) -> Seq<char> {
    id_line(entry_id) + seq!['\n'] + disabled_line(disabled) + seq!['\n']
}

/// The lines of `text` that survive an intent for `entry_id`.
pub open spec fn kept_lines(text: Seq<char>, entry_id: Seq<char>) -> Seq<Seq<char>> {
    kept_from(lines(text), entry_id, false)
}

/// The new patch text for the intent "entry `entry_id` disabled = `disabled`".
pub open spec fn apply_spec(text: Seq<char>, entry_id: Seq<char>, disabled: bool) -> Seq<char> {
    unlines(kept_lines(text, entry_id)) + block(entry_id, disabled)
}

fn marker_chars() -> (v: Vec<char>)
    ensures
        v@ == marker(),
{
    let v = vec!['#', ' ', 'd', 's', 'h', '-', 'c', 'l', 'i', 'e', 'n', 't'];
    assert(v@ =~= marker());
    v
}

fn id_head_chars() -> (v: Vec<char>)
    ensures
        v@ == id_head(),
{
    let v = vec!['-', ' ', 'i', 'd', ':', ' '];
    assert(v@ =~= id_head());
    v
}

fn item_head_chars() -> (v: Vec<char>)
    ensures
        v@ == item_head(),
{
    let v = vec!['-', ' '];
    assert(v@ =~= item_head());
    v
}

fn block_chars(entry_id: &[char], disabled: bool) -> (v: Vec<char>)
    ensures
        v@ == block(entry_id@, disabled),
{
    let mut v = id_head_chars();
    extend(&mut v, entry_id);
    v.push(' ');
    v.push(' ');
    let m = marker_chars();
    extend(&mut v, m.as_slice());
    v.push('\n');
    let head = vec![' ', ' ', 'd', 'i', 's', 'a', 'b', 'l', 'e', 'd', ':', ' '];
    assert(head@ =~= disabled_head());
    extend(&mut v, head.as_slice());
    let b = if disabled {
        let b = vec!['t', 'r', 'u', 'e'];
        assert(b@ =~= bool_text(true));
        b
    } else {
        let b = vec!['f', 'a', 'l', 's', 'e'];
        assert(b@ =~= bool_text(false));
        b
    };
    extend(&mut v, b.as_slice());
    v.push(' ');
    v.push(' ');
    extend(&mut v, m.as_slice());
    v.push('\n');
    assert(v@ =~= block(entry_id@, disabled));
    v
}

fn line_is_marked(line: &[char]) -> (r: bool)
    ensures
        r == is_marked(line@),
{
    let t = trimmed_end(line);
    let m = marker_chars();
    has_suffix(t.as_slice(), m.as_slice())
}

fn line_is_managed_id(line: &[char], entry_id: &[char]) -> (r: bool)
    ensures
        r == is_managed_id_line(line@, entry_id@),
{
    let t = trimmed_end(line);
    let m = marker_chars();
    if !has_suffix(t.as_slice(), m.as_slice()) {
        return false;
    }
    let head = slice_copy(t.as_slice(), 0, t.len() - m.len());
    assert(head@ =~= t@.take(t@.len() - marker().len()));
    let head_trimmed = trimmed_end(head.as_slice());
    let mut want = id_head_chars();
    extend(&mut want, entry_id);
    eq_chars(head_trimmed.as_slice(), want.as_slice())
}

fn line_is_continuation(line: &[char]) -> (r: bool)
    ensures
        r == is_continuation(line@),
{
    if !line_is_marked(line) {
        return false;
    }
    let s = trimmed_start(line);
    let p = item_head_chars();
    !has_prefix(s.as_slice(), p.as_slice())
}

/// The character sequences held by a vector of lines.
pub open spec fn views(ls: Seq<Vec<char>>) -> Seq<Seq<char>> {
    ls.map_values(|l: Vec<char>| l@)
}

/// `str::lines` over a character vector.
fn lines_of(s: &[char]) -> (ls: Vec<Vec<char>>)
    ensures
        views(ls@) == lines(s@),
{
    let mut out: Vec<Vec<char>> = Vec::new();
    let mut cur: Vec<char> = Vec::new();
    let mut i: usize = 0;
    assert(s@.skip(0) =~= s@);
    assert(views(out@) + lines_acc(s@.skip(0), cur@) =~= lines(s@));
    while i < s.len()
        invariant
            i <= s@.len(),
            views(out@) + lines_acc(s@.skip(i as int), cur@) == lines(s@),
        decreases s@.len() - i,
    {
        let ghost rest = s@.skip(i as int);
        assert(rest.drop_first() =~= s@.skip(i + 1));
        if s[i] == '\n' {
            let piece = if cur.len() > 0 && cur[cur.len() - 1] == '\r' {
                slice_copy(cur.as_slice(), 0, cur.len() - 1)
            } else {
                slice_copy(cur.as_slice(), 0, cur.len())
            };
            assert(piece@ =~= strip_cr(cur@));
            let ghost before = views(out@);
            out.push(piece);
            assert(views(out@) =~= before.push(strip_cr(cur@)));
            assert(before + lines_acc(rest, cur@) =~= views(out@) + lines_acc(
                s@.skip(i + 1),
                seq![],
            ));
            cur = Vec::new();
        } else {
            cur.push(s[i]);
        }
        i += 1;
    }
    assert(s@.skip(i as int) =~= Seq::<char>::empty());
    if cur.len() > 0 {
        let ghost before = views(out@);
        let ghost c = cur@;
        out.push(cur);
        assert(views(out@) =~= before + lines_acc(Seq::<char>::empty(), c));
    } else {
        assert(views(out@) =~= views(out@) + lines_acc(Seq::<char>::empty(), cur@));
    }
    out
}

/// Reject entry ids that could break the two-line managed block shape or
/// smuggle YAML into the file.
pub fn validate_entry_id(entry_id: &str) -> (r: Result<(), String>)
    ensures
        r is Ok <==> entry_id_valid(entry_id@),
        r matches Err(m) ==> m@ == (if entry_id@.len() == 0 || trim(entry_id@) != entry_id@ {
            "entryId 为空或含首尾空白："@ + debug_str(entry_id@)
        } else {
            "entryId 含非法字符："@ + debug_str(entry_id@)
        }),
{
    let id = chars_of(entry_id);
    let t = trimmed(id.as_slice());
    if id.len() == 0 || !eq_chars(t.as_slice(), id.as_slice()) {
        let q = debug_quote(entry_id);
        let m = concat_str("entryId 为空或含首尾空白：", chars_of(q.as_str()).as_slice());
        return Err(string_of(m.as_slice()));
    }
    let mut i: usize = 0;
    while i < id.len()
        invariant
            id@ == entry_id@,
            entry_id@.len() > 0,
            trim(entry_id@) == entry_id@,
            i <= id@.len(),
            forall|j: int| 0 <= j < i ==> #[trigger] id@[j] != '\n' && id@[j] != '\r' && id@[j] != '#',
        decreases id@.len() - i,
    {
        let c = id[i];
        if c == '\n' || c == '\r' || c == '#' {
            let q = debug_quote(entry_id);
            let m = concat_str("entryId 含非法字符：", chars_of(q.as_str()).as_slice());
            return Err(string_of(m.as_slice()));
        }
        i += 1;
    }
    Ok(())
}

/// Apply the explicit intent "entry `entry_id` disabled = `disabled`" to patch
/// file text, returning the new text.
pub fn apply_set_disabled(text: &str, entry_id: &str, disabled: bool) -> (r: String)
    ensures
        r@ == apply_spec(text@, entry_id@, disabled),
{
    let t = chars_of(text);
    let id = chars_of(entry_id);
    let ls = lines_of(t.as_slice());
    let ghost all = views(ls@);
    assert(all.skip(0) =~= all);
    let mut out: Vec<char> = Vec::new();
    let mut dropping = false;
    let mut i: usize = 0;
    while i < ls.len()
        invariant
            all == views(ls@),
            id@ == entry_id@,
            i <= all.len(),
            out@ + unlines(kept_from(all.skip(i as int), id@, dropping)) == unlines(
                kept_from(all, id@, false),
            ),
        decreases all.len() - i,
    {
        let ghost rest = all.skip(i as int);
        assert(rest.drop_first() =~= all.skip(i + 1));
        assert(rest[0] == ls[i as int]@);
        let line = &ls[i];
        if dropping && line_is_continuation(line.as_slice()) {
        } else if line_is_managed_id(line.as_slice(), id.as_slice()) {
            dropping = true;
        } else {
            let ghost before = out@;
            let ghost tail = kept_from(all.skip(i + 1), id@, false);
            extend(&mut out, line.as_slice());
            out.push('\n');
            assert((seq![rest[0]] + tail).drop_first() =~= tail);
            assert(before + unlines(seq![rest[0]] + tail) =~= out@ + unlines(tail));
            dropping = false;
        }
        i += 1;
    }
    assert(all.skip(i as int) =~= Seq::<Seq<char>>::empty());
    let b = block_chars(id.as_slice(), disabled);
    extend(&mut out, b.as_slice());
    string_of(out.as_slice())
}

} // verus!

verus! {

/// No `'\r'` right before a `'\n'` (no `"\r\n"` line endings).
pub open spec fn no_crlf(t: Seq<char>) -> bool {
    forall|i: int| 0 < i < t.len() && #[trigger] t[i] == '\n' ==> t[i - 1] != '\r'
}

/// `t` followed by a `'\n'` unless it is empty or already ends with one.
pub open spec fn newline_terminated(t: Seq<char>) -> Seq<char> {
    if t.len() > 0 && t.last() != '\n' {
        t.push('\n')
    } else {
        t
    }
}

pub open spec fn no_newline(s: Seq<char>) -> bool {
    forall|i: int| 0 <= i < s.len() ==> #[trigger] s[i] != '\n'
}

pub open spec fn ends_with_cr(s: Seq<char>) -> bool {
    s.len() > 0 && s.last() == '\r'
}

proof fn lemma_trim_end_len(s: Seq<char>)
    ensures
        trim_end(s).len() <= s.len(),
        trim_end(s).len() == s.len() ==> trim_end(s) == s,
    decreases s.len(),
{
    if s.len() > 0 && is_ws(s.last()) {
        lemma_trim_end_len(s.drop_last());
    }
}

proof fn lemma_trim_start_len(s: Seq<char>)
    ensures
        trim_start(s).len() <= s.len(),
    decreases s.len(),
{
    if s.len() > 0 && is_ws(s[0]) {
        lemma_trim_start_len(s.drop_first());
    }
}

proof fn lemma_valid_id_last(id: Seq<char>)
    requires
        entry_id_valid(id),
    ensures
        !is_ws(id.last()),
{
    lemma_trim_end_len(id);
    lemma_trim_start_len(trim_end(id));
    if is_ws(id.last()) {
        lemma_trim_end_len(id.drop_last());
        assert(trim_end(id) == trim_end(id.drop_last()));
        assert(false);
    }
}

proof fn lemma_id_line_managed(id: Seq<char>)
    requires
        entry_id_valid(id),
    ensures
        is_managed_id_line(id_line(id), id),
        no_newline(id_line(id)),
        !ends_with_cr(id_line(id)),
{
    let l = id_line(id);
    assert(l.last() == 't');
    assert(trim_end(l) == l);
    assert(l.skip(l.len() - marker().len()) =~= marker());
    let h = l.take(l.len() - marker().len());
    assert(h =~= id_head() + id + two_spaces());
    assert(h.drop_last().drop_last() =~= id_head() + id);
    lemma_valid_id_last(id);
    assert((id_head() + id).last() == id.last());
    assert(trim_end(h.drop_last()) == trim_end(h.drop_last().drop_last()));
    assert(trim_end(h) == id_head() + id);
    assert forall|i: int| 0 <= i < l.len() implies #[trigger] l[i] != '\n' by {
        if 6 <= i < 6 + id.len() {
            assert(l[i] == id[i - 6]);
        }
    }
}

proof fn lemma_disabled_line_continuation(d: bool)
    ensures
        is_continuation(disabled_line(d)),
        no_newline(disabled_line(d)),
        !ends_with_cr(disabled_line(d)),
{
    let l = disabled_line(d);
    assert(l.last() == 't');
    assert(trim_end(l) == l);
    assert(l.skip(l.len() - marker().len()) =~= marker());
    assert(l.drop_first().drop_first() =~= l.skip(2));
    assert(trim_start(l) == trim_start(l.drop_first()));
    assert(trim_start(l.drop_first()) == trim_start(l.skip(2)));
    assert(l.skip(2)[0] == 'd');
    assert(trim_start(l) == l.skip(2));
    assert(trim_start(l)[0] != item_head()[0]);
    assert(!starts_with(trim_start(l), item_head())) by {
        if starts_with(trim_start(l), item_head()) {
            assert(trim_start(l).take(2)[0] == trim_start(l)[0]);
        }
    }
    assert(no_newline(l));
}

proof fn lemma_lines_acc_segment(x: Seq<char>, rest: Seq<char>, cur: Seq<char>)
    requires
        no_newline(x),
    ensures
        lines_acc(x + seq!['\n'] + rest, cur) == seq![strip_cr(cur + x)] + lines_acc(rest, seq![]),
    decreases x.len(),
{
    let s = x + seq!['\n'] + rest;
    if x.len() == 0 {
        assert(s[0] == '\n');
        assert(s.drop_first() =~= rest);
        assert(cur + x =~= cur);
    } else {
        assert(s[0] == x[0]);
        assert(s.drop_first() =~= x.drop_first() + seq!['\n'] + rest);
        lemma_lines_acc_segment(x.drop_first(), rest, cur.push(x[0]));
        assert(cur.push(x[0]) + x.drop_first() =~= cur + x);
    }
}

proof fn lemma_unlines_append(a: Seq<Seq<char>>, b: Seq<Seq<char>>)
    ensures
        unlines(a + b) == unlines(a) + unlines(b),
    decreases a.len(),
{
    if a.len() == 0 {
        assert(a + b =~= b);
    } else {
        assert((a + b).drop_first() =~= a.drop_first() + b);
        lemma_unlines_append(a.drop_first(), b);
    }
}

proof fn lemma_lines_unlines(k: Seq<Seq<char>>, tail: Seq<char>)
    requires
        forall|i: int| 0 <= i < k.len() ==> no_newline(#[trigger] k[i]) && !ends_with_cr(k[i]),
    ensures
        lines(unlines(k) + tail) == k + lines(tail),
    decreases k.len(),
{
    if k.len() == 0 {
        assert(unlines(k) + tail =~= tail);
        assert(k + lines(tail) =~= lines(tail));
    } else {
        let rest = unlines(k.drop_first()) + tail;
        assert(unlines(k) + tail =~= k[0] + seq!['\n'] + rest);
        lemma_lines_acc_segment(k[0], rest, seq![]);
        assert(seq![] + k[0] =~= k[0]);
        lemma_lines_unlines(k.drop_first(), tail);
        assert(k =~= seq![k[0]] + k.drop_first());
    }
}

proof fn lemma_lines_acc_no_newline(s: Seq<char>, cur: Seq<char>)
    requires
        no_newline(cur),
    ensures
        forall|i: int| 0 <= i < lines_acc(s, cur).len() ==> no_newline(#[trigger] lines_acc(s, cur)[i]),
    decreases s.len(),
{
    let r = lines_acc(s, cur);
    if s.len() == 0 {
        if cur.len() > 0 {
            assert(r == seq![cur]);
        }
    } else if s[0] == '\n' {
        lemma_lines_acc_no_newline(s.drop_first(), seq![]);
        let t = lines_acc(s.drop_first(), seq![]);
        assert(no_newline(strip_cr(cur)));
        assert forall|i: int| 0 <= i < r.len() implies no_newline(#[trigger] r[i]) by {
            if i > 0 {
                assert(r[i] == t[i - 1]);
            } else {
                assert(r[i] == strip_cr(cur));
            }
        }
    } else {
        assert(no_newline(cur.push(s[0])));
        lemma_lines_acc_no_newline(s.drop_first(), cur.push(s[0]));
        let t = lines_acc(s.drop_first(), cur.push(s[0]));
        assert(r == t);
        assert forall|i: int| 0 <= i < r.len() implies no_newline(#[trigger] r[i]) by {
            assert(r[i] == t[i]);
        }
    }
}

proof fn lemma_kept_props(ls: Seq<Seq<char>>, id: Seq<char>, dropping: bool)
    requires
        forall|i: int| 0 <= i < ls.len() ==> no_newline(#[trigger] ls[i]),
    ensures
        forall|i: int| 0 <= i < kept_from(ls, id, dropping).len() ==> {
            &&& !is_managed_id_line(#[trigger] kept_from(ls, id, dropping)[i], id)
            &&& no_newline(kept_from(ls, id, dropping)[i])
        },
    decreases ls.len(),
{
    if ls.len() == 0 {
    } else {
        assert forall|i: int| 0 <= i < ls.drop_first().len() implies no_newline(#[trigger] ls.drop_first()[i]) by {
            assert(ls.drop_first()[i] == ls[i + 1]);
        }
        let r = kept_from(ls, id, dropping);
        if (dropping && is_continuation(ls[0])) || is_managed_id_line(ls[0], id) {
            lemma_kept_props(ls.drop_first(), id, true);
            let t = kept_from(ls.drop_first(), id, true);
            assert(r == t);
            assert forall|i: int| 0 <= i < r.len() implies !is_managed_id_line(#[trigger] r[i], id)
                && no_newline(r[i]) by {
                assert(r[i] == t[i]);
            }
        } else {
            lemma_kept_props(ls.drop_first(), id, false);
            let r = kept_from(ls, id, dropping);
            let t = kept_from(ls.drop_first(), id, false);
            assert forall|i: int| 0 <= i < r.len() implies !is_managed_id_line(#[trigger] r[i], id)
                && no_newline(r[i]) by {
                if i > 0 {
                    assert(r[i] == t[i - 1]);
                } else {
                    assert(r[i] == ls[0]);
                }
            }
        }
    }
}

proof fn lemma_kept_prefix(k: Seq<Seq<char>>, r: Seq<Seq<char>>, id: Seq<char>)
    requires
        forall|i: int| 0 <= i < k.len() ==> !is_managed_id_line(#[trigger] k[i], id),
    ensures
        kept_from(k + r, id, false) == k + kept_from(r, id, false),
    decreases k.len(),
{
    if k.len() == 0 {
        assert(k + r =~= r);
        assert(k + kept_from(r, id, false) =~= kept_from(r, id, false));
    } else {
        assert((k + r)[0] == k[0]);
        assert((k + r).drop_first() =~= k.drop_first() + r);
        lemma_kept_prefix(k.drop_first(), r, id);
        assert(k =~= seq![k[0]] + k.drop_first());
    }
}

/// Applying the same intent twice gives the text of applying it once
/// (`apply_set_disabled` is idempotent), for every valid entry id and every
/// text whose surviving lines do not end with a carriage return.
pub proof fn lemma_apply_idempotent(text: Seq<char>, entry_id: Seq<char>, disabled: bool)
    requires
        entry_id_valid(entry_id),
        forall|i: int| 0 <= i < kept_lines(text, entry_id).len() ==> !ends_with_cr(#[trigger] kept_lines(text, entry_id)[i]),
    ensures
        apply_spec(apply_spec(text, entry_id, disabled), entry_id, disabled) == apply_spec(
            text,
            entry_id,
            disabled,
        ),
        lines(apply_spec(text, entry_id, disabled)) == kept_lines(text, entry_id).push(id_line(entry_id)).push(disabled_line(disabled)),
{
    let k = kept_lines(text, entry_id);
    let idl = id_line(entry_id);
    let dl = disabled_line(disabled);
    lemma_lines_acc_no_newline(text, seq![]);
    lemma_kept_props(lines(text), entry_id, false);
    lemma_id_line_managed(entry_id);
    lemma_disabled_line_continuation(disabled);
    let all = k + seq![idl, dl];
    assert forall|i: int| 0 <= i < all.len() implies no_newline(#[trigger] all[i]) && !ends_with_cr(all[i]) by {
        if i < k.len() {
            assert(all[i] == k[i]);
        }
    }
    let two = seq![idl, dl];
    assert(two.drop_first() =~= seq![dl]);
    assert(seq![dl].drop_first() =~= Seq::<Seq<char>>::empty());
    assert(unlines(seq![dl]) == dl + seq!['\n'] + unlines(Seq::<Seq<char>>::empty()));
    assert(unlines(two) == idl + seq!['\n'] + unlines(seq![dl]));
    assert(unlines(two) =~= block(entry_id, disabled));
    lemma_unlines_append(k, two);
    let out = apply_spec(text, entry_id, disabled);
    assert(out == unlines(all));
    lemma_lines_unlines(all, seq![]);
    assert(unlines(all) + seq![] =~= unlines(all));
    assert(lines(Seq::<char>::empty()) == Seq::<Seq<char>>::empty());
    assert(lines(out) =~= all);
    lemma_kept_prefix(k, two, entry_id);
    assert(kept_from(two, entry_id, false) == kept_from(seq![dl], entry_id, true));
    assert(kept_from(seq![dl], entry_id, true) == kept_from(Seq::<Seq<char>>::empty(), entry_id, true));
    assert(kept_lines(out, entry_id) =~= k);
    assert(all =~= k.push(idl).push(dl));
}

/// After an intent, the entry has exactly one managed id line: the one of the
/// appended block, second to last.
pub proof fn lemma_apply_single_block(text: Seq<char>, entry_id: Seq<char>, disabled: bool)
    requires
        entry_id_valid(entry_id),
        forall|i: int| 0 <= i < kept_lines(text, entry_id).len() ==> !ends_with_cr(#[trigger] kept_lines(text, entry_id)[i]),
    ensures
        forall|i: int| 0 <= i < lines(apply_spec(text, entry_id, disabled)).len() ==> (is_managed_id_line(
            #[trigger] lines(apply_spec(text, entry_id, disabled))[i],
            entry_id,
        ) <==> i == lines(apply_spec(text, entry_id, disabled)).len() - 2),
{
    lemma_apply_idempotent(text, entry_id, disabled);
    lemma_lines_acc_no_newline(text, seq![]);
    lemma_kept_props(lines(text), entry_id, false);
    lemma_id_line_managed(entry_id);
    lemma_disabled_line_continuation(disabled);
    let k = kept_lines(text, entry_id);
    let ls = lines(apply_spec(text, entry_id, disabled));
    assert forall|i: int| 0 <= i < ls.len() implies (is_managed_id_line(#[trigger] ls[i], entry_id) <==> i
        == ls.len() - 2) by {
        if i < k.len() {
            assert(ls[i] == k[i]);
        } else if i == k.len() + 1 {
            let dl = disabled_line(disabled);
            assert(ls[i] == dl);
            let t = trim_end(dl);
            assert(t == dl);
            let h = t.take(t.len() - marker().len());
            if is_managed_id_line(dl, entry_id) {
                assert(trim_end(h) == id_head() + entry_id);
                lemma_trim_end_len(h);
                assert(trim_end(h) =~= h.take(trim_end(h).len() as int)) by {
                    lemma_trim_end_prefix(h);
                }
                assert(h[0] == ' ');
                assert((id_head() + entry_id)[0] == '-');
            }
        }
    }
}

proof fn lemma_trim_end_prefix(s: Seq<char>)
    ensures
        trim_end(s) == s.take(trim_end(s).len() as int),
    decreases s.len(),
{
    if s.len() > 0 && is_ws(s.last()) {
        lemma_trim_end_prefix(s.drop_last());
        lemma_trim_end_len(s.drop_last());
        assert(s.drop_last().take(trim_end(s).len() as int) =~= s.take(trim_end(s).len() as int));
    } else {
        assert(s.take(s.len() as int) =~= s);
    }
}

proof fn lemma_unlines_lines(s: Seq<char>, cur: Seq<char>)
    requires
        no_newline(cur),
        no_crlf(cur + s),
    ensures
        unlines(lines_acc(s, cur)) == newline_terminated(cur + s),
    decreases s.len(),
{
    let t = cur + s;
    if s.len() == 0 {
        assert(t =~= cur);
        if cur.len() > 0 {
            assert(cur.last() == cur[cur.len() - 1]);
            assert(seq![cur].drop_first() =~= Seq::<Seq<char>>::empty());
            assert(seq![cur][0] == cur);
            assert(unlines(seq![cur]) == cur + seq!['\n'] + unlines(Seq::<Seq<char>>::empty()));
            assert(cur + seq!['\n'] + Seq::<char>::empty() =~= cur.push('\n'));
        }
    } else if s[0] == '\n' {
        assert(t[cur.len() as int] == '\n');
        if cur.len() > 0 {
            assert(t[cur.len() - 1] == cur.last());
        }
        assert(strip_cr(cur) == cur);
        let s2 = s.drop_first();
        assert(seq![] + s2 =~= s2);
        assert forall|i: int| 0 < i < s2.len() && #[trigger] s2[i] == '\n' implies s2[i - 1] != '\r' by {
            assert(t[cur.len() + 1 + i] == s2[i]);
            assert(t[cur.len() + i] == s2[i - 1]);
        }
        lemma_unlines_lines(s2, seq![]);
        let r = lines_acc(s2, seq![]);
        assert((seq![cur] + r).drop_first() =~= r);
        assert(cur + seq!['\n'] + s2 =~= t);
        if s2.len() > 0 {
            assert(s2.last() == t.last());
            assert(cur + seq!['\n'] + newline_terminated(s2) =~= newline_terminated(t));
        } else {
            assert(t.last() == '\n');
            assert(cur + seq!['\n'] + newline_terminated(s2) =~= newline_terminated(t));
        }
    } else {
        assert(cur.push(s[0]) + s.drop_first() =~= t);
        assert(no_newline(cur.push(s[0])));
        lemma_unlines_lines(s.drop_first(), cur.push(s[0]));
    }
}

/// A text holding no managed line of the entry keeps every one of its
/// characters: the result is the text, with a final `'\n'` added when it
/// lacked one, followed by the block (for text without `"\r\n"` line ends,
/// which `lines` would shorten).
pub proof fn lemma_apply_preserves_foreign(text: Seq<char>, entry_id: Seq<char>, disabled: bool)
    requires
        no_crlf(text),
        forall|i: int| 0 <= i < lines(text).len() ==> !is_managed_id_line(#[trigger] lines(text)[i], entry_id),
    ensures
        apply_spec(text, entry_id, disabled) == newline_terminated(text) + block(entry_id, disabled),
        text.len() == 0 || text.last() == '\n' ==> apply_spec(text, entry_id, disabled) == text + block(
            entry_id,
            disabled,
        ),
{
    lemma_kept_prefix(lines(text), seq![], entry_id);
    assert(lines(text) + Seq::<Seq<char>>::empty() =~= lines(text));
    assert(lines(text) + kept_from(Seq::<Seq<char>>::empty(), entry_id, false) =~= lines(text));
    assert(seq![] + text =~= text);
    lemma_unlines_lines(text, seq![]);
}

} // verus!

verus! {

proof fn lemma_other_id_line(o: Seq<char>, e: Seq<char>)
    requires
        entry_id_valid(o),
        entry_id_valid(e),
        o != e,
    ensures
        !is_managed_id_line(id_line(o), e),
        !is_continuation(id_line(o)),
{
    lemma_id_line_managed(o);
    let l = id_line(o);
    if is_managed_id_line(l, e) {
        assert((id_head() + o).skip(6) =~= o);
        assert((id_head() + e).skip(6) =~= e);
    }
    assert(l[0] == '-');
    assert(!is_ws(l[0]));
    assert(trim_start(l) == l);
    assert(l.take(2) =~= item_head());
}

proof fn lemma_disabled_line_not_managed(d: bool, e: Seq<char>)
    ensures
        !is_managed_id_line(disabled_line(d), e),
{
    lemma_disabled_line_continuation(d);
    let dl = disabled_line(d);
    let t = trim_end(dl);
    assert(dl.last() == 't');
    assert(t == dl);
    let h = t.take(t.len() - marker().len());
    if is_managed_id_line(dl, e) {
        assert(trim_end(h) == id_head() + e);
        lemma_trim_end_len(h);
        assert(trim_end(h) =~= h.take(trim_end(h).len() as int)) by {
            lemma_trim_end_prefix(h);
        }
        assert(h[0] == ' ');
        assert((id_head() + e)[0] == '-');
    }
}

proof fn lemma_kept_keeps_pair(
    ls: Seq<Seq<char>>,
    id: Seq<char>,
    dropping: bool,
    i: int,
    x: Seq<char>,
    y: Seq<char>,
)
    requires
        0 <= i,
        i + 1 < ls.len(),
        ls[i] == x,
        ls[i + 1] == y,
        !is_managed_id_line(x, id),
        !is_continuation(x),
        !is_managed_id_line(y, id),
    ensures
        exists|j: int|
            0 <= j && j + 1 < kept_from(ls, id, dropping).len() && #[trigger] kept_from(ls, id, dropping)[j]
                == x && kept_from(ls, id, dropping)[j + 1] == y,
    decreases ls.len(),
{
    let rest = ls.drop_first();
    let k = kept_from(ls, id, dropping);
    if i == 0 {
        assert(rest[0] == y);
        let k2 = kept_from(rest, id, false);
        assert(k2 == seq![y] + kept_from(rest.drop_first(), id, false));
        assert(k == seq![x] + k2);
        assert(k[0] == x && k[1] == y);
    } else {
        assert(rest[i - 1] == x && rest[i] == y);
        if (dropping && is_continuation(ls[0])) || is_managed_id_line(ls[0], id) {
            lemma_kept_keeps_pair(rest, id, true, i - 1, x, y);
            assert(k == kept_from(rest, id, true));
        } else {
            lemma_kept_keeps_pair(rest, id, false, i - 1, x, y);
            let k2 = kept_from(rest, id, false);
            let j = choose|j: int| 0 <= j && j + 1 < k2.len() && #[trigger] k2[j] == x && k2[j + 1] == y;
            assert(k == seq![ls[0]] + k2);
            assert(k[j + 1] == x && k[j + 2] == y);
        }
    }
}

proof fn lemma_unlines_pair(k: Seq<Seq<char>>, j: int) -> (off: int)
    requires
        0 <= j,
        j + 1 < k.len(),
    ensures
        0 <= off,
        off + k[j].len() + k[j + 1].len() + 2 <= unlines(k).len(),
        unlines(k).subrange(off, off + k[j].len() + k[j + 1].len() + 2) == k[j] + seq!['\n'] + k[j + 1]
            + seq!['\n'],
    decreases k.len(),
{
    let rest = k.drop_first();
    if j == 0 {
        let u2 = unlines(rest.drop_first());
        assert(unlines(rest) == rest[0] + seq!['\n'] + u2);
        assert(unlines(k) == k[0] + seq!['\n'] + unlines(rest));
        assert(unlines(k) =~= (k[0] + seq!['\n'] + k[1] + seq!['\n']) + u2);
        assert(unlines(k).subrange(0, (k[0].len() + k[1].len() + 2) as int) =~= k[0] + seq!['\n'] + k[1]
            + seq!['\n']);
        0
    } else {
        let o = lemma_unlines_pair(rest, j - 1);
        assert(rest[j - 1] == k[j] && rest[j] == k[j + 1]);
        let p = k[0] + seq!['\n'];
        assert(unlines(k) == p + unlines(rest));
        let n = k[j].len() + k[j + 1].len() + 2;
        assert((p + unlines(rest)).subrange(p.len() + o, p.len() + o + n) =~= unlines(rest).subrange(
            o,
            o + n,
        ));
        p.len() + o
    }
}

/// An entry id is accepted exactly when it is nonempty, neither starts nor
/// ends with whitespace, and holds no line feed, carriage return or `#`.
pub proof fn lemma_entry_id_characters(id: Seq<char>)
    ensures
        entry_id_valid(id) <==> (id.len() > 0 && !is_ws(id[0]) && !is_ws(id[id.len() - 1]) && forall|i: int|
            0 <= i < id.len() ==> #[trigger] id[i] != '\n' && id[i] != '\r' && id[i] != '#'),
{
    if id.len() > 0 {
        assert(id.last() == id[id.len() - 1]);
        if !is_ws(id[id.len() - 1]) && !is_ws(id[0]) {
            assert(trim_end(id) == id);
            assert(trim_start(id) == id);
        }
        if trim(id) == id {
            lemma_trim_end_len(id);
            lemma_trim_start_len(trim_end(id));
            if is_ws(id[id.len() - 1]) {
                lemma_trim_end_len(id.drop_last());
                assert(false);
            }
            assert(trim_end(id) == id);
            if is_ws(id[0]) {
                lemma_trim_start_len(id.drop_first());
                assert(false);
            }
        }
    }
}

/// An intent for one entry leaves the managed block of every other entry in
/// the text: where the text holds the block of entry `other` (its id line
/// followed by its `disabled` line), so does the result.
pub proof fn lemma_apply_keeps_other_blocks(
    text: Seq<char>,
    entry_id: Seq<char>,
    disabled: bool,
    other: Seq<char>,
    other_disabled: bool,
    i: int,
)
    requires
        entry_id_valid(entry_id),
        entry_id_valid(other),
        other != entry_id,
        0 <= i,
        i + 1 < lines(text).len(),
        lines(text)[i] == id_line(other),
        lines(text)[i + 1] == disabled_line(other_disabled),
    ensures
        exists|off: int|
            0 <= off && off + block(other, other_disabled).len() <= apply_spec(text, entry_id, disabled).len()
                && #[trigger] apply_spec(text, entry_id, disabled).subrange(
                off,
                off + block(other, other_disabled).len(),
            ) == block(other, other_disabled),
{
    let x = id_line(other);
    let y = disabled_line(other_disabled);
    lemma_other_id_line(other, entry_id);
    lemma_disabled_line_not_managed(other_disabled, entry_id);
    lemma_kept_keeps_pair(lines(text), entry_id, false, i, x, y);
    let k = kept_lines(text, entry_id);
    let j = choose|j: int| 0 <= j && j + 1 < k.len() && #[trigger] k[j] == x && k[j + 1] == y;
    let off = lemma_unlines_pair(k, j);
    let out = apply_spec(text, entry_id, disabled);
    let n = block(other, other_disabled).len();
    assert(block(other, other_disabled) =~= x + seq!['\n'] + y + seq!['\n']);
    assert(out == unlines(k) + block(entry_id, disabled));
    assert(out.subrange(off, off + n) =~= unlines(k).subrange(off, off + n));
}

} // verus!

verus! {

/// Patch write failure: the path and the cause.
#[derive(Debug, Clone)]
pub struct PatchError {
    pub path: String,
    pub message: String,
}

impl PatchError {
    /// `"{path}：{message}"`, as the UI shows it.
    pub fn to_display_string(&self) -> (s: String)
        ensures
            s@ == self.path@ + "："@ + self.message@,
    {
        let mut s = self.path.clone();
        s.append("：");
        s.append(self.message.as_str());
        s
    }
}

/// The guidance given when the profile directory does not exist yet.
pub open spec fn profile_missing_text() -> Seq<char> {
    "profile 目录不存在；请先启动一次 daemon 以初始化 profile"@
}

/// The error `set_disabled` reports before touching the file, if any: an
/// invalid entry id first, then a missing profile directory.
pub open spec fn precheck_spec(entry_id: Seq<char>, profile_dir_exists: bool) -> Option<Seq<char>> {
    if !entry_id_valid(entry_id) {
        Some(
            if entry_id.len() == 0 || trim(entry_id) != entry_id {
                "entryId 为空或含首尾空白："@ + debug_str(entry_id)
            } else {
                "entryId 含非法字符："@ + debug_str(entry_id)
            },
        )
    } else if !profile_dir_exists {
        Some(profile_missing_text())
    } else {
        None
    }
}

/// Checks made before the patch file is read: the entry id must be valid and
/// the profile directory (the file's parent) must exist. Errors name
/// `patch_path`.
pub fn precheck_set_disabled(patch_path: &str, entry_id: &str, profile_dir_exists: bool) -> (r:
    Result<(), PatchError>)
    ensures
        match precheck_spec(entry_id@, profile_dir_exists) {
            None => r is Ok,
            Some(m) => r matches Err(e) && e.path@ == patch_path@ && e.message@ == m,
        },
{
    match validate_entry_id(entry_id) {
        Err(m) => {
            return Err(PatchError { path: patch_path.to_owned(), message: m });
        },
        Ok(()) => {},
    }
    if !profile_dir_exists {
        return Err(
            PatchError {
                path: patch_path.to_owned(),
                message: String::from_str("profile 目录不存在；请先启动一次 daemon 以初始化 profile"),
            },
        );
    }
    Ok(())
}

/// Which file operation failed.
#[derive(Debug, Clone, Copy, PartialEq, Eq, Structural)]
pub enum PatchStage {
    Read,
    Backup,
    WriteTemp,
    Rename,
}

pub open spec fn stage_text(stage: PatchStage) -> Seq<char> {
    match stage {
        PatchStage::Read => "读取失败："@,
        PatchStage::Backup => "备份失败："@,
        PatchStage::WriteTemp => "写入临时文件失败："@,
        PatchStage::Rename => "原子替换失败："@,
    }
}

impl PatchError {
    /// The error for a failed file operation: the stage's label followed by
    /// the operating system's description of the cause.
    pub fn io(patch_path: &str, stage: PatchStage, cause: &str) -> (e: PatchError)
        ensures
            e.path@ == patch_path@,
            e.message@ == stage_text(stage) + cause@,
    {
        let mut m = match stage {
            PatchStage::Read => String::from_str("读取失败："),
            PatchStage::Backup => String::from_str("备份失败："),
            PatchStage::WriteTemp => String::from_str("写入临时文件失败："),
            PatchStage::Rename => String::from_str("原子替换失败："),
        };
        m.append(cause);
        PatchError { path: patch_path.to_owned(), message: m }
    }
}

/// What to do with the patch file once its current text is known.
#[derive(Debug, Clone)]
pub enum PatchWrite {
    /// The intent is already realized: leave the file (and its mtime) alone.
    Unchanged,
    /// Write `text` atomically, first copying the file as it is to the backup when
    /// `backup` is set.
    Write { backup: bool, text: String },
}

/// Decides the write for `set_disabled`, given the file's current text
/// (empty when it did not exist), whether it existed, and whether the backup
/// already exists. A backup is made only of an existing file, and only once.
pub fn plan_patch_write(
    current: &str,
    existed: bool,
    backup_exists: bool,
    entry_id: &str,
    disabled: bool,
) -> (r: PatchWrite)
    ensures
        apply_spec(current@, entry_id@, disabled) == current@ ==> r is Unchanged,
        apply_spec(current@, entry_id@, disabled) != current@ ==> (r matches PatchWrite::Write {
            backup,
            text,
        } && backup == (existed && !backup_exists) && text@ == apply_spec(
            current@,
            entry_id@,
            disabled,
        )),
{
    let next = apply_set_disabled(current, entry_id, disabled);
    let o = chars_of(current);
    let n = chars_of(next.as_str());
    if eq_chars(n.as_slice(), o.as_slice()) {
        PatchWrite::Unchanged
    } else {
        PatchWrite::Write { backup: existed && !backup_exists, text: next }
    }
}

} // verus!
