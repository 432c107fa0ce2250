//! Typed values and their rendering as JSON text fragments.
use vstd::prelude::*;
use crate::scan::{
    parse_u32, parses_f64, parses_f64_exec, parses_u32, split_bounds, split_on, sub_vec, trim,
    trim_bounds, u32_value,
};
use crate::table::{lemma_map_of_at, StrMap};
use crate::text::{
    chars_eq, chars_of, decimal, digits, push_char, push_decimal, push_digits, push_str,
    string_of,
};

verus! {

/// A value that renders as a JSON fragment.
pub enum Value {
    /// A string, rendered quoted and escaped.
    Text(String),
    /// A whole number.
    Integer(i64),
    /// A floating-point number, held as its decimal text.
    Float(String),
    /// `true` or `false`.
    Boolean(bool),
    /// An ordered list of values.
    Sequence(Vec<Value>),
}

/// The hexadecimal digit character for `d < 16`, in lower case.
pub open spec fn hex_char(d: nat) -> char {
    if d < 10 {
        crate::text::digit_char(d)
    } else if d == 10 { 'a' }
    else if d == 11 { 'b' }
    else if d == 12 { 'c' }
    else if d == 13 { 'd' }
    else if d == 14 { 'e' }
    else { 'f' }
}

/// How one character of a string stands inside the quotes: `"` and `\`
/// take a backslash, newline, carriage return and tab are written `\n`,
/// `\r`, `\t`, other characters below U+0020 as `\u00XX`; all others,
/// non-ASCII ones included, stand as they are.
pub open spec fn escaped_char(c: char) -> Seq<char> {
    if c == '"' {
        seq!['\\', '"']
    } else if c == '\\' {
        seq!['\\', '\\']
    } else if c == '\n' {
        seq!['\\', 'n']
    } else if c == '\r' {
        seq!['\\', 'r']
    } else if c == '\t' {
        seq!['\\', 't']
    } else if (c as u32) < 0x20 {
        seq!['\\', 'u', '0', '0', hex_char((c as u32 / 16) as nat), hex_char((c as u32 % 16) as nat)]
    } else {
        seq![c]
    }
}

/// The escaped form of a whole string, character by character.
pub open spec fn escaped(s: Seq<char>) -> Seq<char>
    decreases s.len(),
{
    if s.len() == 0 {
        Seq::empty()
    } else {
        escaped(s.drop_last()) + escaped_char(s.last())
    }
}

/// A string as a JSON string literal.
pub open spec fn quoted(s: Seq<char>) -> Seq<char> {
    seq!['"'] + escaped(s) + seq!['"']
}

/// The value of a hexadecimal digit, if `c` is one (either case).
pub open spec fn hex_value(c: char) -> Option<nat> {
    if '0' <= c <= '9' {
        Some((c as u32 - '0' as u32) as nat)
    } else if 'a' <= c <= 'f' {
        Some((c as u32 - 'a' as u32 + 10) as nat)
    } else if 'A' <= c <= 'F' {
        Some((c as u32 - 'A' as u32 + 10) as nat)
    } else {
        None
    }
}

/// The value of four hexadecimal digits, if `d` holds them.
pub open spec fn hex4_value(d: Seq<char>) -> Option<nat> {
    if d.len() == 4 && hex_value(d[0]) is Some && hex_value(d[1]) is Some && hex_value(d[2]) is Some
        && hex_value(d[3]) is Some {
        Some(
            ((hex_value(d[0])->0 * 16 + hex_value(d[1])->0) * 16 + hex_value(d[2])->0) * 16
                + hex_value(d[3])->0,
        )
    } else {
        None
    }
}

/// The character that a one-letter escape `\c` stands for in JSON.
pub open spec fn escape_meaning(c: char) -> Option<char> {
    if c == '"' || c == '\\' || c == '/' {
        Some(c)
    } else if c == 'n' {
        Some('\n')
    } else if c == 'r' {
        Some('\r')
    } else if c == 't' {
        Some('\t')
    } else if c == 'b' {
        Some('\u{8}')
    } else if c == 'f' {
        Some('\u{c}')
    } else {
        None
    }
}

/// Whether the inside `b` of a JSON string literal reads, as a JSON reader
/// decodes it, as the characters `s`: no bare `"` or control character,
/// each backslash starting one of JSON's escapes, and a `\u` escape
/// standing for the character of its code (surrogate pairs are not read).
pub open spec fn unescapes_to(b: Seq<char>, s: Seq<char>) -> bool
    decreases b.len(),
{
    if b.len() == 0 {
        s.len() == 0
    } else if s.len() == 0 {
        false
    } else if b[0] == '\\' {
        b.len() >= 2 && if b[1] == 'u' {
            b.len() >= 6 && hex4_value(b.subrange(2, 6)) == Some(s[0] as u32 as nat)
                && unescapes_to(b.skip(6), s.drop_first())
        } else {
            escape_meaning(b[1]) == Some(s[0]) && unescapes_to(b.skip(2), s.drop_first())
        }
    } else {
        b[0] != '"' && b[0] as u32 >= 0x20 && s[0] == b[0] && unescapes_to(
            b.drop_first(),
            s.drop_first(),
        )
    }
}

/// Whether `t` is a JSON string literal that reads as `s`.
pub open spec fn reads_as_json_string(t: Seq<char>, s: Seq<char>) -> bool {
    t.len() >= 2 && t[0] == '"' && t.last() == '"' && unescapes_to(t.subrange(1, t.len() - 1), s)
}

proof fn lemma_escaped_front(s: Seq<char>)
    requires
        s.len() > 0,
    ensures
        escaped(s) == escaped_char(s[0]) + escaped(s.drop_first()),
    decreases s.len(),
{
    if s.len() == 1 {
        assert(s.drop_last() =~= Seq::<char>::empty());
        assert(s.drop_first() =~= Seq::<char>::empty());
        assert(escaped(s) =~= escaped_char(s[0]) + escaped(s.drop_first()));
    } else {
        lemma_escaped_front(s.drop_last());
        assert(s.drop_last().drop_first() =~= s.drop_first().drop_last());
        assert(s.drop_first().last() == s.last());
        assert(escaped(s) =~= escaped_char(s[0]) + escaped(s.drop_first()));
    }
}

proof fn lemma_unescape_char(c: char, rest: Seq<char>, s: Seq<char>)
    requires
        unescapes_to(escaped(rest), s),
    ensures
        unescapes_to(escaped_char(c) + escaped(rest), seq![c] + s),
{
    let e = escaped_char(c);
    let b = e + escaped(rest);
    let t = seq![c] + s;
    assert(b.skip(e.len() as int) =~= escaped(rest));
    assert(t.drop_first() =~= s);
    if (c as u32) < 0x20 && c != '\n' && c != '\r' && c != '\t' {
        let d = b.subrange(2, 6);
        assert(d =~= seq!['0', '0', hex_char((c as u32 / 16) as nat), hex_char((c as u32 % 16) as nat)]);
        assert(hex4_value(d) == Some((c as u32) as nat));
    } else if e.len() == 1 {
        assert(b.drop_first() =~= escaped(rest));
    }
}

/// Serialized text is a JSON string literal that reads, with a JSON
/// reader's decoding, as the text itself.
pub proof fn text_round_trip(s: Seq<char>)
    ensures
        reads_as_json_string(quoted(s), s),
{
    lemma_unescape_all(s);
    let t = quoted(s);
    assert(t.subrange(1, t.len() - 1) =~= escaped(s));
}

proof fn lemma_unescape_all(s: Seq<char>)
    ensures
        unescapes_to(escaped(s), s),
    decreases s.len(),
{
    if s.len() > 0 {
        lemma_escaped_front(s);
        lemma_unescape_all(s.drop_first());
        lemma_unescape_char(s[0], s.drop_first(), s.drop_first());
        assert(seq![s[0]] + s.drop_first() =~= s);
    }
}

/// The JSON fragment of a value: strings quoted, numbers in decimal, booleans
/// as `true`/`false`, lists as `[` + items joined by `,` + `]`.
pub open spec fn serialized(v: Value) -> Seq<char>
    decreases v,
{
    match v {
        Value::Text(s) => quoted(s@),
        Value::Integer(n) => decimal(n as int),
        Value::Float(t) => t@,
        Value::Boolean(b) => if b {
            seq!['t', 'r', 'u', 'e']
        } else {
            seq!['f', 'a', 'l', 's', 'e']
        },
        Value::Sequence(items) => seq!['['] + serialized_items(items@) + seq![']'],
    }
}

/// The fragments of `items` joined by `,`, with no comma at either end.
pub open spec fn serialized_items(items: Seq<Value>) -> Seq<char>
    decreases items,
{
    if items.len() == 0 {
        Seq::empty()
    } else if items.len() == 1 {
        serialized(items[0])
    } else {
        serialized_items(items.drop_last()) + seq![','] + serialized(items.last())
    }
}

fn hex_of(d: u32) -> (c: char)
    requires
        d < 16,
    ensures
        c == hex_char(d as nat),
{
    if d == 0 { '0' }
    else if d == 1 { '1' }
    else if d == 2 { '2' }
    else if d == 3 { '3' }
    else if d == 4 { '4' }
    else if d == 5 { '5' }
    else if d == 6 { '6' }
    else if d == 7 { '7' }
    else if d == 8 { '8' }
    else if d == 9 { '9' }
    else if d == 10 { 'a' }
    else if d == 11 { 'b' }
    else if d == 12 { 'c' }
    else if d == 13 { 'd' }
    else if d == 14 { 'e' }
    else { 'f' }
}

/// Appends the escaped form of `c`.
fn push_escaped_char(out: &mut String, c: char)
    ensures
        final(out)@ == old(out)@ + escaped_char(c),
{
    if c == '"' {
        push_char(out, '\\');
        push_char(out, '"');
    } else if c == '\\' {
        push_char(out, '\\');
        push_char(out, '\\');
    } else if c == '\n' {
        push_char(out, '\\');
        push_char(out, 'n');
    } else if c == '\r' {
        push_char(out, '\\');
        push_char(out, 'r');
    } else if c == '\t' {
        push_char(out, '\\');
        push_char(out, 't');
    } else if (c as u32) < 0x20 {
        push_char(out, '\\');
        push_char(out, 'u');
        push_char(out, '0');
        push_char(out, '0');
        push_char(out, hex_of(c as u32 / 16));
        push_char(out, hex_of(c as u32 % 16));
    } else {
        push_char(out, c);
    }
    assert(final(out)@ =~= old(out)@ + escaped_char(c));
}

/// Appends `s` as a JSON string literal.
pub fn push_quoted(out: &mut String, s: &str)
    ensures
        final(out)@ == old(out)@ + quoted(s@),
{
    let cs = chars_of(s);
    push_char(out, '"');
    let ghost start = out@;
    let mut i: usize = 0;
    assert(cs@.take(0) =~= Seq::<char>::empty());
    while i < cs.len()
        invariant
            cs@ == s@,
            i <= cs.len(),
            out@ == start + escaped(cs@.take(i as int)),
        decreases cs.len() - i,
    {
        push_escaped_char(out, cs[i]);
        assert(cs@.take(i + 1).drop_last() =~= cs@.take(i as int));
        i = i + 1;
    }
    assert(cs@.take(cs.len() as int) =~= cs@);
    push_char(out, '"');
    assert(final(out)@ =~= old(out)@ + quoted(s@));
}

/// Appends the JSON fragment of `v`.
pub fn push_serialized(out: &mut String, v: &Value)
    ensures
        final(out)@ == old(out)@ + serialized(*v),
    decreases v,
{
    match v {
        Value::Text(s) => push_quoted(out, s.as_str()),
        Value::Integer(n) => push_decimal(out, *n),
        Value::Float(t) => push_str(out, t.as_str()),
        Value::Boolean(b) => {
            if *b {
                push_str(out, "true");
                proof { reveal_strlit("true"); }
                assert(final(out)@ =~= old(out)@ + serialized(*v));
            } else {
                push_str(out, "false");
                proof { reveal_strlit("false"); }
                assert(final(out)@ =~= old(out)@ + serialized(*v));
            }
        },
        Value::Sequence(items) => {
            push_char(out, '[');
            let ghost start = out@;
            let mut i: usize = 0;
            assert(items@.take(0) =~= Seq::<Value>::empty());
            while i < items.len()
                invariant
                    *v == Value::Sequence(*items),
                    i <= items.len(),
                    out@ == start + serialized_items(items@.take(i as int)),
                decreases items.len() - i,
            {
                if i > 0 {
                    push_char(out, ',');
                }
                proof {
                    broadcast use vstd::std_specs::vec::axiom_vec_index_decreases;
                    let vv = *v;
                    assert(decreases_to!(vv => vv->Sequence_0));
                    assert(decreases_to!(vv->Sequence_0 => vv->Sequence_0[i as int]));
                    assert(decreases_to!(*v => items[i as int]));
                }
                push_serialized(out, &items[i]);
                assert(items@.take(i + 1).drop_last() =~= items@.take(i as int));
                assert(items@.take(i + 1).last() == items@[i as int]);
                assert(out@ =~= start + serialized_items(items@.take(i + 1)));
                i = i + 1;
            }
            assert(items@.take(items.len() as int) =~= items@);
            push_char(out, ']');
            assert(final(out)@ =~= old(out)@ + serialized(*v));
        },
    }
}

/// The JSON fragment of `v`.
pub fn serialize(v: &Value) -> (r: String)
    ensures
        r@ == serialized(*v),
{
    let mut r = String::new();
    push_serialized(&mut r, v);
    assert(r@ =~= serialized(*v));
    r
}


/// A value held by the attribute store.
pub enum AttrValue {
    /// A string.
    Text(String),
    /// An unsigned integer.
    Unsigned(u32),
    /// A floating-point number, held as its decimal text.
    Float(String),
    /// A boolean.
    Boolean(bool),
    /// A signed integer: storable and retrievable, but outside the set of
    /// types that the text renderings recognise.
    Integer(i64),
}

/// What an attribute value is, as a mathematical value.
pub enum AttrView {
    Text(Seq<char>),
    Unsigned(u32),
    Float(Seq<char>),
    Boolean(bool),
    Integer(i64),
}

/// The type of an attribute value, given when a value is retrieved.
#[derive(PartialEq, Eq, Structural, Clone, Copy)]
pub enum Kind {
    Text,
    Unsigned,
    Float,
    Boolean,
    Integer,
}

impl View for AttrValue {
    type V = AttrView;

    open spec fn view(&self) -> AttrView {
        match self {
            AttrValue::Text(s) => AttrView::Text(s@),
            AttrValue::Unsigned(n) => AttrView::Unsigned(*n),
            AttrValue::Float(t) => AttrView::Float(t@),
            AttrValue::Boolean(b) => AttrView::Boolean(*b),
            AttrValue::Integer(n) => AttrView::Integer(*n),
        }
    }
}

/// The type of a value.
pub open spec fn kind_of(v: AttrView) -> Kind {
    match v {
        AttrView::Text(_) => Kind::Text,
        AttrView::Unsigned(_) => Kind::Unsigned,
        AttrView::Float(_) => Kind::Float,
        AttrView::Boolean(_) => Kind::Boolean,
        AttrView::Integer(_) => Kind::Integer,
    }
}

impl AttrValue {
    /// The type of this value.
    pub fn kind(&self) -> (r: Kind)
        ensures
            r == kind_of(self@),
    {
        match self {
            AttrValue::Text(_) => Kind::Text,
            AttrValue::Unsigned(_) => Kind::Unsigned,
            AttrValue::Float(_) => Kind::Float,
            AttrValue::Boolean(_) => Kind::Boolean,
            AttrValue::Integer(_) => Kind::Integer,
        }
    }
}

/// The text of a value in listings: strings, unsigned integers, floats and
/// booleans as they are; any other type as `(unknown type)`.
pub open spec fn rendered(v: AttrView) -> Seq<char> {
    match v {
        AttrView::Text(s) => s,
        AttrView::Unsigned(n) => digits(n as nat),
        AttrView::Float(t) => t,
        AttrView::Boolean(b) => if b {
            seq!['t', 'r', 'u', 'e']
        } else {
            seq!['f', 'a', 'l', 's', 'e']
        },
        AttrView::Integer(_) => "(unknown type)"@,
    }
}

/// The value that ingestion reads from the text `v`, trying in turn: an
/// unsigned integer, a float, `true`/`false`, a string in double quotes
/// (the quotes dropped); anything else becomes the text
/// `(unsupported type)`.
pub open spec fn classify(v: Seq<char>) -> AttrView {
    if parses_u32(v) {
        AttrView::Unsigned(u32_value(v) as u32)
    } else if parses_f64(v) {
        AttrView::Float(v)
    } else if v == seq!['t', 'r', 'u', 'e'] {
        AttrView::Boolean(true)
    } else if v == seq!['f', 'a', 'l', 's', 'e'] {
        AttrView::Boolean(false)
    } else if v.len() > 0 && v[0] == '"' && v.last() == '"' {
        AttrView::Text(trim(v, true))
    } else {
        AttrView::Text("(unsupported type)"@)
    }
}

/// The key and value that one comma-separated piece holds: it must have
/// exactly one colon; the key is trimmed of white space and then of double
/// quotes, the value trimmed of white space.
pub open spec fn parse_pair(seg: Seq<char>) -> Option<(Seq<char>, AttrView)> {
    let parts = split_on(trim(seg, false), ':');
    if parts.len() != 2 {
        None
    } else {
        Some((trim(trim(parts[0], false), true), classify(trim(parts[1], false))))
    }
}

/// `m` after the pairs of the pieces `segs` are set in order.
pub open spec fn ingest(m: Map<Seq<char>, AttrView>, segs: Seq<Seq<char>>) -> Map<Seq<char>, AttrView>
    decreases segs.len(),
{
    if segs.len() == 0 {
        m
    } else {
        let m1 = ingest(m, segs.drop_last());
        match parse_pair(segs.last()) {
            Some(p) => m1.insert(p.0, p.1),
            None => m1,
        }
    }
}

/// What stands between the outer braces of `s` once it is trimmed, if it
/// starts with `{` and ends with `}`.
pub open spec fn braced_body(s: Seq<char>) -> Option<Seq<char>> {
    let t = trim(s, false);
    if t.len() >= 2 && t[0] == '{' && t.last() == '}' {
        Some(t.subrange(1, t.len() - 1))
    } else {
        None
    }
}

/// The map that setting `u`'s pairs in order makes: a later pair wins.
pub open spec fn updates_map(u: Seq<(Seq<char>, AttrView)>) -> Map<Seq<char>, AttrView>
    decreases u.len(),
{
    if u.len() == 0 {
        Map::empty()
    } else {
        updates_map(u.drop_last()).insert(u.last().0, u.last().1)
    }
}

/// Key/value pairs as mathematical values.
pub open spec fn update_views(u: Seq<(String, AttrValue)>) -> Seq<(Seq<char>, AttrView)> {
    u.map_values(|p: (String, AttrValue)| (p.0@, p.1@))
}

/// After a value is stored under a key, retrieving that key finds the
/// value under the value's own type and under no other.
pub proof fn get_after_set(m: Map<Seq<char>, AttrView>, k: Seq<char>, v: AttrView, kind: Kind)
    ensures
        m.insert(k, v).contains_key(k),
        m.insert(k, v)[k] == v,
        (kind_of(m.insert(k, v)[k]) == kind) <==> (kind == kind_of(v)),
{
}

/// A store of attributes: one value per key, each of one of the types of
/// [`AttrValue`], retrieved only under its own type.
pub struct ParseJson {
    attributes: StrMap<AttrValue>,
}

impl View for ParseJson {
    type V = Map<Seq<char>, AttrView>;

    closed spec fn view(&self) -> Map<Seq<char>, AttrView> {
        self.attributes@.map_values(|v: AttrValue| v@)
    }
}

impl ParseJson {
    /// Well-formedness of the underlying map.
    pub closed spec fn wf(&self) -> bool {
        self.attributes.wf()
    }

    /// The entries in the order in which their keys were first stored.
    pub closed spec fn listing(&self) -> Seq<(Seq<char>, AttrView)> {
        self.attributes.entries().map_values(|p: (String, AttrValue)| (p.0@, p.1@))
    }

    /// An empty store.
    pub fn new() -> (r: Self)
        ensures
            r.wf(),
            r@ == Map::<Seq<char>, AttrView>::empty(),
    {
        let r = ParseJson { attributes: StrMap::new() };
        assert(r@ =~= Map::<Seq<char>, AttrView>::empty());
        r
    }

    /// Stores `value` under `key`, replacing whatever was there.
    pub fn set(&mut self, key: String, value: AttrValue)
        requires
            old(self).wf(),
        ensures
            final(self).wf(),
            final(self)@ == old(self)@.insert(key@, value@),
            final(self)@.len() == if old(self)@.contains_key(key@) {
                old(self)@.len()
            } else {
                old(self)@.len() + 1
            },
    {
        let ghost k = key@;
        let ghost v = value@;
        proof { old(self).lemma_listing(); }
        self.attributes.insert(key, value);
        assert(self@ =~= old(self)@.insert(k, v));
    }

    /// The value under `key`, if there is one and it is of type `kind`.
    pub fn get(&self, key: &str, kind: Kind) -> (r: Option<&AttrValue>)
        requires
            self.wf(),
        ensures
            match r {
                Some(v) => self@.contains_key(key@) && v@ == self@[key@] && kind_of(v@) == kind,
                None => !(self@.contains_key(key@) && kind_of(self@[key@]) == kind),
            },
    {
        match self.attributes.get(key) {
            Some(v) => {
                if v.kind() == kind {
                    Some(v)
                } else {
                    None
                }
            },
            None => None,
        }
    }

    /// The value under `key` as text (see [`rendered`]), of whatever type
    /// it is, if there is one.
    pub fn get_text(&self, key: &str) -> (r: Option<String>)
        requires
            self.wf(),
        ensures
            match r {
                Some(t) => self@.contains_key(key@) && t@ == rendered(self@[key@]),
                None => !self@.contains_key(key@),
            },
    {
        match self.attributes.get(key) {
            Some(v) => Some(render(v)),
            None => None,
        }
    }

    /// Removes `key` and its value.
    pub fn delete(&mut self, key: &str)
        requires
            old(self).wf(),
        ensures
            final(self).wf(),
            final(self)@ == old(self)@.remove(key@),
    {
        self.attributes.remove(key);
        assert(self@ =~= old(self)@.remove(key@));
    }

    /// Removes every attribute.
    pub fn delete_all(&mut self)
        ensures
            final(self).wf(),
            final(self)@ == Map::<Seq<char>, AttrView>::empty(),
    {
        self.attributes.clear();
        assert(self@ =~= Map::<Seq<char>, AttrView>::empty());
    }

    /// Stores each of `updates` in turn, over what is there: keys already
    /// stored and not in `updates` keep their values.
    pub fn patch(&mut self, updates: Vec<(String, AttrValue)>)
        requires
            old(self).wf(),
        ensures
            final(self).wf(),
            final(self)@ == old(self)@.union_prefer_right(updates_map(update_views(updates@))),
    {
        let ghost uv = update_views(updates@);
        assert(uv.take(0) =~= Seq::<(Seq<char>, AttrView)>::empty());
        assert(old(self)@ =~= old(self)@.union_prefer_right(updates_map(uv.take(0))));
        for entry in it: updates.into_iter()
            invariant
                self.wf(),
                uv == update_views(it.seq()),
                self@ == old(self)@.union_prefer_right(updates_map(uv.take(it.index() as int))),
        {
            let ghost i = it.index() as int;
            let (k, v) = entry;
            self.set(k, v);
            assert(uv.take(i + 1).drop_last() =~= uv.take(i));
            assert(self@ =~= old(self)@.union_prefer_right(updates_map(uv.take(i + 1))));
        }
        assert(uv.take(uv.len() as int) =~= uv);
    }

    /// Replaces the whole store by the pairs of `new_attributes` (a later
    /// pair wins over an earlier one with the same key).
    pub fn put(&mut self, new_attributes: Vec<(String, AttrValue)>)
        requires
            old(self).wf(),
        ensures
            final(self).wf(),
            final(self)@ == updates_map(update_views(new_attributes@)),
    {
        self.delete_all();
        self.patch(new_attributes);
        assert(self@ =~= updates_map(update_views(new_attributes@)));
    }

    /// Each attribute with its value as text (see [`rendered`]), one pair
    /// per key.
    pub fn get_all(&self) -> (r: Vec<(String, String)>)
        requires
            self.wf(),
        ensures
            r@.len() == self@.len(),
            forall|i: int|
                0 <= i < r@.len() ==> self@.contains_key((#[trigger] r@[i]).0@) && r@[i].1@
                    == rendered(self@[r@[i].0@]),
            forall|i: int, j: int|
                0 <= i < r@.len() && 0 <= j < r@.len() && i != j ==> (#[trigger] r@[i]).0@
                    != (#[trigger] r@[j]).0@,
            forall|k: Seq<char>|
                #[trigger] self@.contains_key(k) ==> exists|i: int|
                    0 <= i < r@.len() && (#[trigger] r@[i]).0@ == k,
    {
        let e = self.attributes.as_vec();
        let mut r: Vec<(String, String)> = Vec::new();
        let mut i: usize = 0;
        while i < e.len()
            invariant
                self.wf(),
                e@ == self.attributes.entries(),
                i <= e.len(),
                r@.len() == i,
                forall|k: int|
                    0 <= k < i ==> (#[trigger] r@[k]).0@ == e@[k].0@ && r@[k].1@ == rendered(
                        e@[k].1@,
                    ),
            decreases e.len() - i,
        {
            let key = e[i].0.clone();
            let text = render(&e[i].1);
            r.push((key, text));
            i = i + 1;
        }
        proof {
            self.lemma_len();
            assert forall|k: int| 0 <= k < r@.len() implies self@.contains_key((#[trigger] r@[k]).0@)
                && r@[k].1@ == rendered(self@[r@[k].0@]) by {
                lemma_map_of_at(e@, k);
            }
            self.attributes.lemma_entries();
            assert forall|k: Seq<char>| #[trigger] self@.contains_key(k) implies exists|i: int|
                0 <= i < r@.len() && (#[trigger] r@[i]).0@ == k by {
                assert(self.attributes@.contains_key(k));
                let i = choose|i: int| 0 <= i < e@.len() && (#[trigger] e@[i]).0@ == k;
                assert(r@[i].0@ == k);
            }
        }
        r
    }

    proof fn lemma_len(&self)
        requires
            self.wf(),
        ensures
            self@.len() == self.attributes.entries().len(),
    {
        assert(self@.dom() =~= self.attributes@.dom());
        self.attributes.lemma_len();
    }

    /// Relates the ordered listing of the entries to the store's map: the
    /// store is finite, and the listing holds each of its keys once, with
    /// the key's value.
    pub proof fn lemma_listing(&self)
        requires
            self.wf(),
        ensures
            self@.dom().finite(),
            self.listing().len() == self@.len(),
            forall|i: int|
                0 <= i < self.listing().len() ==> self@.contains_key((#[trigger] self.listing()[i]).0)
                    && self@[self.listing()[i].0] == self.listing()[i].1,
            forall|i: int, j: int|
                0 <= i < self.listing().len() && 0 <= j < self.listing().len() && i != j
                    ==> (#[trigger] self.listing()[i]).0 != (#[trigger] self.listing()[j]).0,
            forall|k: Seq<char>|
                #[trigger] self@.contains_key(k) ==> exists|i: int|
                    0 <= i < self.listing().len() && (#[trigger] self.listing()[i]).0 == k,
    {
        self.lemma_len();
        assert(self@.dom() =~= self.attributes@.dom());
        self.attributes.lemma_entries();
        let e = self.attributes.entries();
        let l = self.listing();
        assert forall|i: int| 0 <= i < l.len() implies self@.contains_key((#[trigger] l[i]).0)
            && self@[l[i].0] == l[i].1 by {
            lemma_map_of_at(e, i);
        }
        assert forall|i: int, j: int| 0 <= i < l.len() && 0 <= j < l.len() && i != j
            implies (#[trigger] l[i]).0 != (#[trigger] l[j]).0 by {
            assert(e[i].0@ != e[j].0@);
        }
        assert forall|k: Seq<char>| #[trigger] self@.contains_key(k) implies exists|i: int|
            0 <= i < l.len() && (#[trigger] l[i]).0 == k by {
            assert(self.attributes@.contains_key(k));
            let i = choose|i: int| 0 <= i < e.len() && (#[trigger] e[i]).0@ == k;
            assert(l[i].0 == k);
        }
    }

    /// The whole store as text: `{`, then `"key": value` per entry, joined by
    /// `, `, then `}`; strings stand in double quotes, other recognised
    /// values bare, and values of other types as `"(unknown type)"`.
    pub fn to_debug_string(&self) -> (r: String)
        requires
            self.wf(),
        ensures
            r@ == debug_form(self.listing()),
    {
        let e = self.attributes.as_vec();
        let ghost l = self.listing();
        let mut r = String::new();
        push_char(&mut r, '{');
        let ghost start = r@;
        let mut i: usize = 0;
        assert(l.take(0) =~= Seq::<(Seq<char>, AttrView)>::empty());
        while i < e.len()
            invariant
                e@ == self.attributes.entries(),
                l == self.listing(),
                i <= e.len(),
                r@ == start + debug_entries(l.take(i as int)),
            decreases e.len() - i,
        {
            if i > 0 {
                push_char(&mut r, ',');
                push_char(&mut r, ' ');
            }
            push_debug_entry(&mut r, &e[i].0, &e[i].1);
            assert(l.take(i + 1).drop_last() =~= l.take(i as int));
            assert(l.take(i + 1).last() == l[i as int]);
            assert(r@ =~= start + debug_entries(l.take(i + 1)));
            i = i + 1;
        }
        assert(l.take(e.len() as int) =~= l);
        push_char(&mut r, '}');
        assert(r@ =~= debug_form(l));
        r
    }

    /// Stores the one pair that `cs[x..y]` holds, if it holds one.
    fn ingest_piece(&mut self, cs: &Vec<char>, x: usize, y: usize)
        requires
            old(self).wf(),
            x <= y <= cs.len(),
        ensures
            final(self).wf(),
            final(self)@ == match parse_pair(cs@.subrange(x as int, y as int)) {
                Some(p) => old(self)@.insert(p.0, p.1),
                None => old(self)@,
            },
    {
        let (p0, p1) = trim_bounds(cs, x, y, false);
        let parts = split_bounds(cs, p0, p1, ':');
        if parts.len() != 2 {
            return;
        }
        let (k0, k1) = parts[0];
        let (ka, kb) = trim_bounds(cs, k0, k1, false);
        let (kc, kd) = trim_bounds(cs, ka, kb, true);
        let key = string_of(&sub_vec(cs, kc, kd));
        let (v0, v1) = parts[1];
        let (va, vb) = trim_bounds(cs, v0, v1, false);
        let value = classify_value(&sub_vec(cs, va, vb));
        self.set(key, value);
    }

    /// Reads attributes from text of the form `{ "key": value, ... }`.
    /// The text is trimmed and must start with `{` and end with `}`, else
    /// nothing is stored. What is between is split at every comma; a piece
    /// with exactly one colon gives a key and a value (see [`parse_pair`]),
    /// which is stored; other pieces are skipped.
    pub fn set_all(&mut self, json_string: &str)
        requires
            old(self).wf(),
        ensures
            final(self).wf(),
            final(self)@ == match braced_body(json_string@) {
                Some(b) => ingest(old(self)@, split_on(b, ',')),
                None => old(self)@,
            },
    {
        let cs = chars_of(json_string);
        let (a, b) = trim_bounds(&cs, 0, cs.len(), false);
        assert(cs@.subrange(0, cs.len() as int) =~= cs@);
        if !(b - a >= 2 && cs[a] == '{' && cs[b - 1] == '}') {
            return;
        }
        let ghost t = trim(json_string@, false);
        assert(t.subrange(1, t.len() - 1) =~= cs@.subrange(a + 1, b - 1));
        let segs = split_bounds(&cs, a + 1, b - 1, ',');
        let ghost parts = split_on(cs@.subrange(a + 1, b - 1), ',');
        let mut k: usize = 0;
        assert(parts.take(0) =~= Seq::<Seq<char>>::empty());
        while k < segs.len()
            invariant
                self.wf(),
                a + 1 <= b - 1 <= cs.len(),
                segs@.len() == parts.len(),
                parts == split_on(cs@.subrange(a + 1, b - 1), ','),
                forall|j: int|
                    0 <= j < segs@.len() ==> {
                        &&& a + 1 <= (#[trigger] segs@[j]).0 <= segs@[j].1 <= b - 1
                        &&& cs@.subrange(segs@[j].0 as int, segs@[j].1 as int) == parts[j]
                    },
                k <= segs.len(),
                self@ == ingest(old(self)@, parts.take(k as int)),
            decreases segs.len() - k,
        {
            let (x, y) = segs[k];
            self.ingest_piece(&cs, x, y);
            assert(parts.take(k + 1).drop_last() =~= parts.take(k as int));
            assert(parts.take(k + 1).last() == parts[k as int]);
            k = k + 1;
        }
        assert(parts.take(segs.len() as int) =~= parts);
    }
}

/// The text of a stored value in the debug form.
pub open spec fn debug_value(v: AttrView) -> Seq<char> {
    match v {
        AttrView::Text(s) => seq!['"'] + s + seq!['"'],
        AttrView::Integer(_) => "\"(unknown type)\""@,
        _ => rendered(v),
    }
}

/// One entry of the debug form: `"key": value`.
pub open spec fn debug_entry(p: (Seq<char>, AttrView)) -> Seq<char> {
    seq!['"'] + p.0 + seq!['"', ':', ' '] + debug_value(p.1)
}

/// The entries of the debug form, joined by `, `.
pub open spec fn debug_entries(l: Seq<(Seq<char>, AttrView)>) -> Seq<char>
    decreases l.len(),
{
    if l.len() == 0 {
        Seq::empty()
    } else if l.len() == 1 {
        debug_entry(l[0])
    } else {
        debug_entries(l.drop_last()) + seq![',', ' '] + debug_entry(l.last())
    }
}

/// The debug form of a store listing: its entries in braces.
pub open spec fn debug_form(l: Seq<(Seq<char>, AttrView)>) -> Seq<char> {
    seq!['{'] + debug_entries(l) + seq!['}']
}

fn push_debug_entry(out: &mut String, k: &String, v: &AttrValue)
    ensures
        final(out)@ == old(out)@ + debug_entry((k@, v@)),
{
    push_char(out, '"');
    push_str(out, k.as_str());
    push_char(out, '"');
    push_char(out, ':');
    push_char(out, ' ');
    match v {
        AttrValue::Text(s) => {
            push_char(out, '"');
            push_str(out, s.as_str());
            push_char(out, '"');
        },
        AttrValue::Integer(_) => {
            push_str(out, "\"(unknown type)\"");
        },
        _ => {
            let t = render(v);
            push_str(out, t.as_str());
        },
    }
    assert(final(out)@ =~= old(out)@ + debug_entry((k@, v@)));
}

/// The text of a value in listings.
pub fn render(v: &AttrValue) -> (r: String)
    ensures
        r@ == rendered(v@),
{
    match v {
        AttrValue::Text(s) => s.clone(),
        AttrValue::Unsigned(n) => {
            let mut r = String::new();
            push_digits(&mut r, *n as u64);
            assert(r@ =~= rendered(v@));
            r
        },
        AttrValue::Float(t) => t.clone(),
        AttrValue::Boolean(b) => {
            let mut r = String::new();
            if *b {
                push_str(&mut r, "true");
            } else {
                push_str(&mut r, "false");
            }
            proof {
                reveal_strlit("true");
                reveal_strlit("false");
            }
            assert(r@ =~= rendered(v@));
            r
        },
        AttrValue::Integer(_) => String::from_str("(unknown type)"),
    }
}

/// The value that ingestion reads from the text `v` (see [`classify`]).
pub fn classify_value(v: &Vec<char>) -> (r: AttrValue)
    ensures
        r@ == classify(v@),
{
    match parse_u32(v) {
        Some(n) => AttrValue::Unsigned(n),
        None => {
            if parses_f64_exec(v) {
                AttrValue::Float(string_of(v))
            } else if chars_eq(v, &vec!['t', 'r', 'u', 'e']) {
                AttrValue::Boolean(true)
            } else if chars_eq(v, &vec!['f', 'a', 'l', 's', 'e']) {
                AttrValue::Boolean(false)
            } else if v.len() > 0 && v[0] == '"' && v[v.len() - 1] == '"' {
                let (a, b) = trim_bounds(v, 0, v.len(), true);
                assert(v@.subrange(0, v.len() as int) =~= v@);
                AttrValue::Text(string_of(&sub_vec(v, a, b)))
            } else {
                AttrValue::Text(String::from_str("(unsupported type)"))
            }
        },
    }
}

} // verus!
