//! A JSON value of the library's own, holding as plain values what the `/api`
//! envelope logic reads, with its compact text form.

use vstd::prelude::*;
use crate::text::{chars_of, extend};

verus! {

/// A JSON value. Numbers are held as their JSON text (as `serde_json` writes
/// them), object entries in their map order.
#[derive(Debug, PartialEq)]
pub enum JsonValue {
    Null,
    Bool(bool),
    Number(String),
    String(String),
    Array(Vec<JsonValue>),
    Object(Vec<(String, JsonValue)>),
}

/// The mathematical model of a [`JsonValue`].
pub enum JsonView {
    Null,
    Bool(bool),
    Number(Seq<char>),
    String(Seq<char>),
    Array(Seq<JsonView>),
    Object(Seq<(Seq<char>, JsonView)>),
}

pub open spec fn view_of(j: JsonValue) -> JsonView
    decreases j,
{
    match j {
        JsonValue::Null => JsonView::Null,
        JsonValue::Bool(b) => JsonView::Bool(b),
        JsonValue::Number(n) => JsonView::Number(n@),
        JsonValue::String(s) => JsonView::String(s@),
        JsonValue::Array(v) => JsonView::Array(views_of(v@)),
        JsonValue::Object(m) => JsonView::Object(entry_views_of(m@)),
    }
}

pub open spec fn views_of(v: Seq<JsonValue>) -> Seq<JsonView>
    decreases v,
{
    if v.len() == 0 {
        seq![]
    } else {
        seq![view_of(v[0])] + views_of(v.drop_first())
    }
}

pub open spec fn entry_views_of(m: Seq<(String, JsonValue)>) -> Seq<(Seq<char>, JsonView)>
    decreases m,
{
    if m.len() == 0 {
        seq![]
    } else {
        seq![(m[0].0@, view_of(m[0].1))] + entry_views_of(m.drop_first())
    }
}

impl View for JsonValue {
    type V = JsonView;

    open spec fn view(&self) -> JsonView {
        view_of(*self)
    }
}

/// The first entry of `m` under `key`.
pub open spec fn find_entry(m: Seq<(Seq<char>, JsonView)>, key: Seq<char>) -> Option<JsonView>
    decreases m.len(),
{
    if m.len() == 0 {
        None
    } else if m[0].0 == key {
        Some(m[0].1)
    } else {
        find_entry(m.drop_first(), key)
    }
}

/// `value.get(key)`: the member of an object, `None` for anything else.
pub open spec fn jget(j: JsonView, key: Seq<char>) -> Option<JsonView> {
    match j {
        JsonView::Object(m) => find_entry(m, key),
        _ => None,
    }
}

/// `.and_then(Value::as_str)`.
pub open spec fn jstr(o: Option<JsonView>) -> Option<Seq<char>> {
    match o {
        Some(JsonView::String(s)) => Some(s),
        _ => None,
    }
}

/// `.and_then(Value::as_bool)`.
pub open spec fn jbool(o: Option<JsonView>) -> Option<bool> {
    match o {
        Some(JsonView::Bool(b)) => Some(b),
        _ => None,
    }
}

pub proof fn lemma_views_len(v: Seq<JsonValue>)
    ensures
        views_of(v).len() == v.len(),
        forall|i: int| 0 <= i < v.len() ==> #[trigger] views_of(v)[i] == view_of(v[i]),
    decreases v.len(),
{
    if v.len() > 0 {
        lemma_views_len(v.drop_first());
        assert forall|i: int| 0 <= i < v.len() implies #[trigger] views_of(v)[i] == view_of(v[i]) by {
            if i > 0 {
                assert(views_of(v)[i] == views_of(v.drop_first())[i - 1]);
            }
        }
    }
}

pub proof fn lemma_entry_views_len(m: Seq<(String, JsonValue)>)
    ensures
        entry_views_of(m).len() == m.len(),
        forall|i: int| 0 <= i < m.len() ==> #[trigger] entry_views_of(m)[i] == (m[i].0@, view_of(m[i].1)),
    decreases m.len(),
{
    if m.len() > 0 {
        lemma_entry_views_len(m.drop_first());
        assert forall|i: int| 0 <= i < m.len() implies #[trigger] entry_views_of(m)[i] == (
            m[i].0@,
            view_of(m[i].1),
        ) by {
            if i > 0 {
                assert(entry_views_of(m)[i] == entry_views_of(m.drop_first())[i - 1]);
            }
        }
    }
}

proof fn lemma_views_push(v: Seq<JsonValue>, x: JsonValue)
    ensures
        views_of(v.push(x)) == views_of(v).push(view_of(x)),
{
    lemma_views_len(v);
    lemma_views_len(v.push(x));
    assert forall|i: int| 0 <= i < v.len() + 1 implies #[trigger] views_of(v.push(x))[i] == views_of(v).push(view_of(x))[i] by {
        if i < v.len() {
            assert(v.push(x)[i] == v[i]);
        }
    }
    assert(views_of(v.push(x)) =~= views_of(v).push(view_of(x)));
}

proof fn lemma_entry_views_push(m: Seq<(String, JsonValue)>, e: (String, JsonValue))
    ensures
        entry_views_of(m.push(e)) == entry_views_of(m).push((e.0@, view_of(e.1))),
{
    lemma_entry_views_len(m);
    lemma_entry_views_len(m.push(e));
    assert forall|i: int| 0 <= i < m.len() + 1 implies #[trigger] entry_views_of(m.push(e))[i] == entry_views_of(m).push((e.0@, view_of(e.1)))[i] by {
        if i < m.len() {
            assert(m.push(e)[i] == m[i]);
        }
    }
    assert(entry_views_of(m.push(e)) =~= entry_views_of(m).push((e.0@, view_of(e.1))));
}

impl JsonValue {
    /// A copy with the same model.
    pub fn deep_clone(&self) -> (r: JsonValue)
        ensures
            r@ == self@,
        decreases self,
    {
        match self {
            JsonValue::Null => JsonValue::Null,
            JsonValue::Bool(b) => JsonValue::Bool(*b),
            JsonValue::Number(n) => JsonValue::Number(n.clone()),
            JsonValue::String(s) => JsonValue::String(s.clone()),
            JsonValue::Array(v) => {
                let mut out: Vec<JsonValue> = Vec::new();
                let mut i: usize = 0;
                while i < v.len()
                    invariant
                        i <= v@.len(),
                        *self is Array,
                        self->Array_0 == *v,
                        views_of(out@) == views_of(v@.take(i as int)),
                    decreases v@.len() - i,
                {
                    proof {
                        assert(decreases_to!(*self => self->Array_0));
                        assert(decreases_to!(self->Array_0 => self->Array_0@[i as int]));
                    }
                    let x = v[i].deep_clone();
                    proof {
                        lemma_views_push(out@, x);
                        lemma_views_push(v@.take(i as int), v@[i as int]);
                        assert(v@.take(i as int).push(v@[i as int]) =~= v@.take(i + 1));
                    }
                    out.push(x);
                    i += 1;
                }
                assert(v@.take(v@.len() as int) =~= v@);
                JsonValue::Array(out)
            },
            JsonValue::Object(m) => {
                let mut out: Vec<(String, JsonValue)> = Vec::new();
                let mut i: usize = 0;
                while i < m.len()
                    invariant
                        i <= m@.len(),
                        *self is Object,
                        self->Object_0 == *m,
                        entry_views_of(out@) == entry_views_of(m@.take(i as int)),
                    decreases m@.len() - i,
                {
                    proof {
                        assert(decreases_to!(*self => self->Object_0));
                        assert(decreases_to!(self->Object_0 => self->Object_0@[i as int]));
                        assert(decreases_to!(self->Object_0@[i as int] => self->Object_0@[i as int].1));
                    }
                    let e = (m[i].0.clone(), m[i].1.deep_clone());
                    proof {
                        lemma_entry_views_push(out@, e);
                        lemma_entry_views_push(m@.take(i as int), m@[i as int]);
                        assert(m@.take(i as int).push(m@[i as int]) =~= m@.take(i + 1));
                    }
                    out.push(e);
                    i += 1;
                }
                assert(m@.take(m@.len() as int) =~= m@);
                JsonValue::Object(out)
            },
        }
    }

    /// `Value::get` with a string key.
    pub fn get(&self, key: &str) -> (r: Option<&JsonValue>)
        ensures
            match r {
                Some(v) => jget(self@, key@) == Some(v@),
                None => jget(self@, key@) is None,
            },
    {
        match self {
            JsonValue::Object(m) => {
                let k = chars_of(key);
                let ghost mv = entry_views_of(m@);
                proof {
                    lemma_entry_views_len(m@);
                    assert(mv.skip(0) =~= mv);
                    assert(self@ == JsonView::Object(mv));
                }
                let mut i: usize = 0;
                while i < m.len()
                    invariant
                        k@ == key@,
                        mv == entry_views_of(m@),
                        self@ == JsonView::Object(mv),
                        mv.len() == m@.len(),
                        forall|j: int| 0 <= j < m@.len() ==> #[trigger] mv[j] == (m@[j].0@, view_of(m@[j].1)),
                        i <= m@.len(),
                        find_entry(mv, key@) == find_entry(mv.skip(i as int), key@),
                    decreases m@.len() - i,
                {
                    let ghost rest = mv.skip(i as int);
                    assert(rest.drop_first() =~= mv.skip(i + 1));
                    assert(rest[0] == mv[i as int]);
                    let kc = chars_of(m[i].0.as_str());
                    if crate::text::eq_chars(kc.as_slice(), k.as_slice()) {
                        assert(mv[i as int].0 == key@);
                        return Some(&m[i].1);
                    }
                    i += 1;
                }
                None
            },
            _ => None,
        }
    }

    /// `Value::as_str`.
    pub fn as_str(&self) -> (r: Option<&str>)
        ensures
            match r {
                Some(s) => jstr(Some(self@)) == Some(s@),
                None => jstr(Some(self@)) is None,
            },
    {
        match self {
            JsonValue::String(s) => Some(s.as_str()),
            _ => None,
        }
    }

    /// `Value::as_bool`.
    pub fn as_bool(&self) -> (r: Option<bool>)
        ensures
            r == jbool(Some(self@)),
    {
        match self {
            JsonValue::Bool(b) => Some(*b),
            _ => None,
        }
    }
}

} // verus!

verus! {

pub open spec fn hex_digit(d: int) -> char {
    if d < 10 {
        crate::text::digit_char(d as nat)
    } else if d == 10 {
        'a'
    } else if d == 11 {
        'b'
    } else if d == 12 {
        'c'
    } else if d == 13 {
        'd'
    } else if d == 14 {
        'e'
    } else {
        'f'
    }
}

/// How `serde_json` writes one character inside a string literal.
pub open spec fn escape_char(c: char) -> Seq<char> {
    if c == '"' {
        seq!['\\', '"']
    } else if c == '\\' {
        seq!['\\', '\\']
    } else if c == '\u{8}' {
        seq!['\\', 'b']
    } else if c == '\u{c}' {
        seq!['\\', 'f']
    } else if c == '\n' {
        seq!['\\', 'n']
    } else if c == '\r' {
        seq!['\\', 'r']
    } else if c == '\t' {
        seq!['\\', 't']
    } else if (c as u32) < 0x20 {
        seq!['\\', 'u', '0', '0', hex_digit(((c as u32) / 16) as int), hex_digit(((c as u32) % 16) as int)]
    } else {
        seq![c]
    }
}

pub open spec fn escape(s: Seq<char>) -> Seq<char>
    decreases s.len(),
{
    if s.len() == 0 {
        seq![]
    } else {
        escape(s.drop_last()) + escape_char(s.last())
    }
}

/// A JSON string literal.
pub open spec fn quote(s: Seq<char>) -> Seq<char> {
    seq!['"'] + escape(s) + seq!['"']
}

/// The compact JSON text of a value (what `Value`'s `Display` writes).
pub open spec fn render(j: JsonView) -> Seq<char>
    decreases j,
{
    match j {
        JsonView::Null => seq!['n', 'u', 'l', 'l'],
        JsonView::Bool(b) => if b {
            seq!['t', 'r', 'u', 'e']
        } else {
            seq!['f', 'a', 'l', 's', 'e']
        },
        JsonView::Number(t) => t,
        JsonView::String(s) => quote(s),
        JsonView::Array(v) => seq!['['] + render_items(v) + seq![']'],
        JsonView::Object(m) => seq!['{'] + render_entries(m) + seq!['}'],
    }
}

pub open spec fn render_items(v: Seq<JsonView>) -> Seq<char>
    decreases v,
{
    if v.len() == 0 {
        seq![]
    } else if v.len() == 1 {
        render(v[0])
    } else {
        render_items(v.drop_last()) + seq![','] + render(v.last())
    }
}

pub open spec fn render_entries(m: Seq<(Seq<char>, JsonView)>) -> Seq<char>
    decreases m,
{
    if m.len() == 0 {
        seq![]
    } else if m.len() == 1 {
        quote(m[0].0) + seq![':'] + render(m[0].1)
    } else {
        render_entries(m.drop_last()) + seq![','] + quote(m.last().0) + seq![':'] + render(m.last().1)
    }
}

fn hex_of(d: u32) -> (c: char)
    requires
        d < 16,
    ensures
        c == hex_digit(d as int),
{
    if d < 10 {
        crate::text::digit_of(d as u64)
    } else if d == 10 {
        'a'
    } else if d == 11 {
        'b'
    } else if d == 12 {
        'c'
    } else if d == 13 {
        'd'
    } else if d == 14 {
        'e'
    } else {
        'f'
    }
}

fn push_escaped(c: char, out: &mut Vec<char>)
    ensures
        final(out)@ == old(out)@ + escape_char(c),
{
    let ghost start = out@;
    if c == '"' {
        out.push('\\');
        out.push('"');
    } else if c == '\\' {
        out.push('\\');
        out.push('\\');
    } else if c == '\u{8}' {
        out.push('\\');
        out.push('b');
    } else if c == '\u{c}' {
        out.push('\\');
        out.push('f');
    } else if c == '\n' {
        out.push('\\');
        out.push('n');
    } else if c == '\r' {
        out.push('\\');
        out.push('r');
    } else if c == '\t' {
        out.push('\\');
        out.push('t');
    } else if (c as u32) < 0x20 {
        out.push('\\');
        out.push('u');
        out.push('0');
        out.push('0');
        out.push(hex_of((c as u32) / 16));
        out.push(hex_of((c as u32) % 16));
    } else {
        out.push(c);
    }
    assert(out@ =~= start + escape_char(c));
}

/// Appends the JSON string literal of `s`.
pub fn push_quoted(s: &str, out: &mut Vec<char>)
    ensures
        final(out)@ == old(out)@ + quote(s@),
{
    let cs = chars_of(s);
    let ghost start = out@;
    out.push('"');
    let mut i: usize = 0;
    while i < cs.len()
        invariant
            i <= cs@.len(),
            cs@ == s@,
            out@ == start + seq!['"'] + escape(cs@.take(i as int)),
        decreases cs@.len() - i,
    {
        assert(cs@.take(i + 1).drop_last() =~= cs@.take(i as int));
        push_escaped(cs[i], out);
        i += 1;
    }
    assert(cs@.take(cs@.len() as int) =~= cs@);
    out.push('"');
    assert(out@ =~= start + quote(s@));
}

/// Appends the compact JSON text of `j`.
pub fn write_json(j: &JsonValue, out: &mut Vec<char>)
    ensures
        final(out)@ == old(out)@ + render(j@),
    decreases j,
{
    let ghost start = out@;
    match j {
        JsonValue::Null => {
            out.push('n');
            out.push('u');
            out.push('l');
            out.push('l');
        },
        JsonValue::Bool(b) => {
            if *b {
                out.push('t');
                out.push('r');
                out.push('u');
                out.push('e');
            } else {
                out.push('f');
                out.push('a');
                out.push('l');
                out.push('s');
                out.push('e');
            }
        },
        JsonValue::Number(t) => {
            let cs = chars_of(t.as_str());
            extend(out, cs.as_slice());
        },
        JsonValue::String(s) => {
            push_quoted(s.as_str(), out);
        },
        JsonValue::Array(v) => {
            let ghost vs = views_of(v@);
            proof {
                lemma_views_len(v@);
            }
            out.push('[');
            let mut i: usize = 0;
            while i < v.len()
                invariant
                    *j is Array,
                    j->Array_0 == *v,
                    vs == views_of(v@),
                    vs.len() == v@.len(),
                    forall|k: int| 0 <= k < v@.len() ==> #[trigger] vs[k] == view_of(v@[k]),
                    i <= v@.len(),
                    out@ == start + seq!['['] + render_items(vs.take(i as int)),
                decreases v@.len() - i,
            {
                proof {
                    assert(decreases_to!(*j => j->Array_0));
                    assert(decreases_to!(j->Array_0 => j->Array_0@[i as int]));
                    assert(vs.take(i + 1).drop_last() =~= vs.take(i as int));
                    assert(vs.take(i + 1).last() == vs[i as int]);
                    if i == 0 {
                        assert(vs.take(1) =~= seq![vs[0]]);
                    }
                }
                if i > 0 {
                    out.push(',');
                }
                write_json(&v[i], out);
                i += 1;
            }
            assert(vs.take(vs.len() as int) =~= vs);
            out.push(']');
            assert(out@ =~= start + render(j@));
        },
        JsonValue::Object(m) => {
            let ghost ms = entry_views_of(m@);
            proof {
                lemma_entry_views_len(m@);
            }
            out.push('{');
            let mut i: usize = 0;
            while i < m.len()
                invariant
                    *j is Object,
                    j->Object_0 == *m,
                    ms == entry_views_of(m@),
                    ms.len() == m@.len(),
                    forall|k: int| 0 <= k < m@.len() ==> #[trigger] ms[k] == (m@[k].0@, view_of(m@[k].1)),
                    i <= m@.len(),
                    out@ == start + seq!['{'] + render_entries(ms.take(i as int)),
                decreases m@.len() - i,
            {
                proof {
                    assert(decreases_to!(*j => j->Object_0));
                    assert(decreases_to!(j->Object_0 => j->Object_0@[i as int]));
                    assert(decreases_to!(j->Object_0@[i as int] => j->Object_0@[i as int].1));
                    assert(ms.take(i + 1).drop_last() =~= ms.take(i as int));
                    assert(ms.take(i + 1).last() == ms[i as int]);
                    if i == 0 {
                        assert(ms.take(1) =~= seq![ms[0]]);
                    }
                }
                if i > 0 {
                    out.push(',');
                }
                push_quoted(m[i].0.as_str(), out);
                out.push(':');
                write_json(&m[i].1, out);
                i += 1;
            }
            assert(ms.take(ms.len() as int) =~= ms);
            out.push('}');
            assert(out@ =~= start + render(j@));
        },
    }
    assert(out@ =~= start + render(j@));
}

} // verus!
