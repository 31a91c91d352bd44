//! The document encoder: the JSON string escaping rules, the output sink
//! capability, and the helpers that emit JSON tokens through it.
//!
//! A sink provides one text-appending primitive and a record terminator;
//! every JSON token is emitted through derived helpers built on the
//! primitive alone, so exactly one escaping and punctuation implementation
//! exists.

use crate::conv::{i64_dec_text, itoa_base10, u64_dec_text, utoa_base10};
use vstd::prelude::*;
use vstd::string::StrSliceExecFns;
use vstd::string::StringExecFns;

verus! {

/// Whether `c` is one of the five characters replaced by a two-character
/// escape sequence in JSON string bodies.
pub open spec fn is_escaped_char(c: char) -> bool {
    c == '"' || c == '\\' || c == '\n' || c == '\r' || c == '\t'
}

/// The escaped form of one character: a two-character sequence for the five
/// escaped characters, the character itself otherwise.
pub open spec fn escape_char(c: char) -> Seq<char> {
    if c == '"' {
        "\\\""@
    } else if c == '\\' {
        "\\\\"@
    } else if c == '\n' {
        "\\n"@
    } else if c == '\r' {
        "\\r"@
    } else if c == '\t' {
        "\\t"@
    } else {
        seq![c]
    }
}

/// The escaped form of a text: each character replaced by its escaped form.
pub open spec fn escape_text(s: Seq<char>) -> Seq<char>
    decreases s.len(),
{
    if s.len() == 0 {
        Seq::empty()
    } else {
        escape_char(s[0]) + escape_text(s.drop_first())
    }
}

/// The character named by the second character of a two-character JSON
/// escape sequence.
pub open spec fn unescape_code(c: char) -> char {
    if c == 'n' {
        '\n'
    } else if c == 'r' {
        '\r'
    } else if c == 't' {
        '\t'
    } else {
        c
    }
}

/// JSON unescaping: each backslash and its follower are replaced by the
/// character the pair names; everything else passes through.
pub open spec fn unescape_text(s: Seq<char>) -> Seq<char>
    decreases s.len(),
{
    if s.len() == 0 {
        Seq::empty()
    } else if s[0] == '\\' && s.len() >= 2 {
        seq![unescape_code(s[1])] + unescape_text(s.skip(2))
    } else {
        seq![s[0]] + unescape_text(s.drop_first())
    }
}

/// The text of a JSON string token holding `s`: the escaped body in quotes.
pub open spec fn json_string_text(s: Seq<char>) -> Seq<char> {
    "\""@ + escape_text(s) + "\""@
}

/// The text of a JSON boolean literal.
pub open spec fn bool_text(b: bool) -> Seq<char> {
    if b {
        "true"@
    } else {
        "false"@
    }
}

pub proof fn lemma_escape_concat(a: Seq<char>, b: Seq<char>)
    ensures
        escape_text(a + b) == escape_text(a) + escape_text(b),
    decreases a.len(),
{
    if a.len() == 0 {
        assert(a + b =~= b);
        assert(escape_text(a) + escape_text(b) =~= escape_text(b));
    } else {
        lemma_escape_concat(a.drop_first(), b);
        assert((a + b).drop_first() =~= a.drop_first() + b);
        assert(escape_char((a + b)[0]) == escape_char(a[0]));
        assert(escape_text(a + b) =~= escape_char(a[0]) + (escape_text(a.drop_first()) + escape_text(b)));
        assert(escape_char(a[0]) + (escape_text(a.drop_first()) + escape_text(b)) =~= (escape_char(
            a[0],
        ) + escape_text(a.drop_first())) + escape_text(b));
    }
}

pub proof fn lemma_escape_plain(s: Seq<char>)
    requires
        forall|i: int| 0 <= i < s.len() ==> !is_escaped_char(s[i]),
    ensures
        escape_text(s) == s,
    decreases s.len(),
{
    if s.len() > 0 {
        lemma_escape_plain(s.drop_first());
        assert(escape_text(s) =~= seq![s[0]] + s.drop_first());
        assert(seq![s[0]] + s.drop_first() =~= s);
    }
}

proof fn lemma_escape_step(s: Seq<char>, i: int)
    requires
        0 <= i < s.len(),
    ensures
        escape_text(s.take(i + 1)) == escape_text(s.take(i)) + escape_char(s[i]),
{
    assert(s.take(i + 1) =~= s.take(i) + seq![s[i]]);
    lemma_escape_concat(s.take(i), seq![s[i]]);
    let single = seq![s[i]];
    assert(single.drop_first() =~= Seq::<char>::empty());
    assert(escape_text(single) == escape_char(single[0]) + escape_text(single.drop_first()));
    assert(escape_char(s[i]) + Seq::<char>::empty() =~= escape_char(s[i]));
}

/// Law: escaping any text and then JSON-unescaping the result yields the
/// original text again, wherever the escaped characters stand in it.
pub proof fn lemma_escape_round_trip(s: Seq<char>)
    ensures
        unescape_text(escape_text(s)) == s,
    decreases s.len(),
{
    reveal_strlit("\\\"");
    reveal_strlit("\\\\");
    reveal_strlit("\\n");
    reveal_strlit("\\r");
    reveal_strlit("\\t");
    if s.len() > 0 {
        lemma_escape_round_trip(s.drop_first());
        let e = escape_text(s);
        if is_escaped_char(s[0]) {
            assert(escape_char(s[0]).len() == 2);
            assert(e[0] == '\\');
            assert(e.len() >= 2);
            assert(e[1] == escape_char(s[0])[1]);
            assert(unescape_code(e[1]) == s[0]);
            assert(e.skip(2) =~= escape_text(s.drop_first()));
            assert(unescape_text(e) =~= seq![s[0]] + s.drop_first());
        } else {
            assert(escape_char(s[0]) =~= seq![s[0]]);
            assert(e[0] == s[0]);
            assert(e[0] != '\\');
            assert(e.drop_first() =~= escape_text(s.drop_first()));
            assert(unescape_text(e) =~= seq![s[0]] + s.drop_first());
        }
        assert(seq![s[0]] + s.drop_first() =~= s);
    }
}

/// The output sink capability: one raw text primitive, one record
/// terminator, and the closed set of JSON token helpers built on them.
///
/// `text` is the whole text the sink has been handed, terminators included;
/// a terminator counts as one newline, whatever the sink does with it.
pub trait Outputter: Sized {
    /// The full text handed to the sink so far.
    spec fn text(&self) -> Seq<char>;

    /// Appends raw text.
    fn write_str(&mut self, val: &str)
        ensures
            final(self).text() == old(self).text() + val@,
    ;

    /// Ends the record; the sink may flush here.
    fn endline(&mut self)
        ensures
            final(self).text() == old(self).text() + "\n"@,
    ;

    /// Writes `val` with the five JSON escapes applied.
    fn write_str_with_escape(&mut self, val: &str)
        ensures
            final(self).text() == old(self).text() + escape_text(val@),
    {
        let ghost t0 = self.text();
        let len = val.unicode_len();
        let mut start: usize = 0;
        let mut i: usize = 0;
        while i < len
            invariant
                len == val@.len(),
                start <= i <= len,
                self.text() == t0 + escape_text(val@.take(start as int)),
                forall|k: int| start <= k < i ==> !is_escaped_char(val@[k]),
            decreases len - i,
        {
            let c = val.get_char(i);
            if c == '"' || c == '\\' || c == '\n' || c == '\r' || c == '\t' {
                self.write_str(val.substring_char(start, i));
                if c == '"' {
                    self.write_str("\\\"");
                } else if c == '\\' {
                    self.write_str("\\\\");
                } else if c == '\n' {
                    self.write_str("\\n");
                } else if c == '\r' {
                    self.write_str("\\r");
                } else {
                    self.write_str("\\t");
                }
                proof {
                    lemma_escape_plain(val@.subrange(start as int, i as int));
                    lemma_escape_concat(val@.take(start as int), val@.subrange(start as int, i as int));
                    assert(val@.take(start as int) + val@.subrange(start as int, i as int) =~= val@.take(i as int));
                    lemma_escape_step(val@, i as int);
                    assert(self.text() =~= t0 + escape_text(val@.take(i + 1)));
                }
                start = i + 1;
            }
            i = i + 1;
        }
        self.write_str(val.substring_char(start, len));
        proof {
            lemma_escape_plain(val@.subrange(start as int, len as int));
            lemma_escape_concat(val@.take(start as int), val@.subrange(start as int, len as int));
            assert(val@.take(start as int) + val@.subrange(start as int, len as int) =~= val@);
            assert(self.text() =~= t0 + escape_text(val@));
        }
    }

    /// Writes the element separator.
    fn write_json_comma(&mut self)
        ensures
            final(self).text() == old(self).text() + ","@,
    {
        self.write_str(",");
    }

    /// Writes the JSON null literal.
    fn write_json_null(&mut self)
        ensures
            final(self).text() == old(self).text() + "null"@,
    {
        self.write_str("null");
    }

    /// Writes an object key as an escaped string token and its colon.
    fn write_json_key(&mut self, key: &str)
        ensures
            final(self).text() == old(self).text() + json_string_text(key@) + ":"@,
    {
        let ghost t0 = self.text();
        self.write_json_string(key);
        self.write_str(":");
        proof {
            assert(self.text() =~= t0 + json_string_text(key@) + ":"@);
        }
    }

    /// Writes a JSON string token: the escaped body in quotes.
    fn write_json_string(&mut self, s: &str)
        ensures
            final(self).text() == old(self).text() + json_string_text(s@),
    {
        let ghost t0 = self.text();
        self.write_str("\"");
        self.write_str_with_escape(s);
        self.write_str("\"");
        proof {
            assert(self.text() =~= t0 + json_string_text(s@));
        }
    }

    /// Writes a JSON boolean literal.
    fn write_json_bool(&mut self, b: bool)
        ensures
            final(self).text() == old(self).text() + bool_text(b),
    {
        if b {
            self.write_str("true");
        } else {
            self.write_str("false");
        }
    }

    /// Opens a JSON object.
    fn write_json_start(&mut self)
        ensures
            final(self).text() == old(self).text() + "{"@,
    {
        self.write_str("{");
    }

    /// Closes a JSON object.
    fn write_json_end(&mut self)
        ensures
            final(self).text() == old(self).text() + "}"@,
    {
        self.write_str("}");
    }

    /// Opens a JSON array.
    fn write_json_start_array(&mut self)
        ensures
            final(self).text() == old(self).text() + "["@,
    {
        self.write_str("[");
    }

    /// Closes a JSON array.
    fn write_json_end_array(&mut self)
        ensures
            final(self).text() == old(self).text() + "]"@,
    {
        self.write_str("]");
    }
}

/// An in-memory sink: accumulates the text in a string and counts the
/// records that were terminated through it.
pub struct BufferOutputter {
    /// Everything written so far, record terminators rendered as newlines.
    pub inner: String,
    /// How many records were terminated; saturates at the type's maximum.
    pub fin_count: u64,
}

impl Outputter for BufferOutputter {
    open spec fn text(&self) -> Seq<char> {
        self.inner@
    }

    fn write_str(&mut self, val: &str) {
        self.inner.append(val);
    }

    fn endline(&mut self) {
        self.inner.append("\n");
        if self.fin_count < u64::MAX {
            self.fin_count = self.fin_count + 1;
        }
    }
}

impl BufferOutputter {
    /// An empty in-memory sink.
    pub fn new() -> (r: BufferOutputter)
        ensures
            r.text() == Seq::<char>::empty(),
            r.fin_count == 0,
    {
        BufferOutputter { inner: String::new(), fin_count: 0 }
    }

    /// The accumulated text.
    pub fn as_str(&self) -> (r: &str)
        ensures
            r@ == self.text(),
    {
        self.inner.as_str()
    }
}

/// One scalar log value.  A float arrives already rendered as its JSON
/// token text, built by `conv::f64_to_str` from the value's bit pattern.
pub enum Atom {
    Float(String),
    Int(i64),
    Uint(u64),
    Text(String),
    Bool(bool),
}

/// The value of one record entry: a scalar, a finite sequence of scalars,
/// or the optional form of either, where absence renders as JSON null.
pub enum Value {
    Atom(Atom),
    Array(Vec<Atom>),
    Optatom(Option<Atom>),
    Optarray(Option<Vec<Atom>>),
}

/// A named field of a record.
pub struct Entry {
    pub key: String,
    pub value: Value,
}

/// The severity of a record.
#[derive(Clone, Copy)]
pub enum Level {
    Debug,
    Info,
    Warn,
    Error,
}

/// The fixed lowercase name of a severity level.
pub open spec fn level_text(level: Level) -> Seq<char> {
    match level {
        Level::Debug => "debug"@,
        Level::Info => "info"@,
        Level::Warn => "warn"@,
        Level::Error => "error"@,
    }
}

impl Level {
    /// The fixed lowercase name of the level.
    pub fn as_str(self) -> (r: &'static str)
        ensures
            r@ == level_text(self),
    {
        match self {
            Level::Debug => "debug",
            Level::Info => "info",
            Level::Warn => "warn",
            Level::Error => "error",
        }
    }
}

/// The JSON token text of one atom.
pub open spec fn atom_text(a: Atom) -> Seq<char> {
    match a {
        Atom::Float(s) => s@,
        Atom::Int(i) => i64_dec_text(i as int),
        Atom::Uint(u) => u64_dec_text(u as nat),
        Atom::Text(s) => json_string_text(s@),
        Atom::Bool(b) => bool_text(b),
    }
}

/// The comma-separated element list of a JSON array of atoms.
pub open spec fn array_items_text(atoms: Seq<Atom>) -> Seq<char>
    decreases atoms.len(),
{
    if atoms.len() == 0 {
        Seq::empty()
    } else if atoms.len() == 1 {
        atom_text(atoms[0])
    } else {
        array_items_text(atoms.drop_last()) + ","@ + atom_text(atoms.last())
    }
}

/// The text of a JSON array of atoms.
pub open spec fn array_text(atoms: Seq<Atom>) -> Seq<char> {
    "["@ + array_items_text(atoms) + "]"@
}

/// The JSON text of one entry value.
pub open spec fn value_text(v: Value) -> Seq<char> {
    match v {
        Value::Atom(a) => atom_text(a),
        Value::Array(atoms) => array_text(atoms@),
        Value::Optatom(oa) => match oa {
            Some(a) => atom_text(a),
            None => "null"@,
        },
        Value::Optarray(oarr) => match oarr {
            Some(atoms) => array_text(atoms@),
            None => "null"@,
        },
    }
}

/// The text one entry adds to a record: its comma, its escaped key as a
/// string token, the colon, and its value.
pub open spec fn entry_text(e: Entry) -> Seq<char> {
    ","@ + json_string_text(e.key@) + ":"@ + value_text(e.value)
}

/// The text of a whole entry sequence, in order.
pub open spec fn entries_text(es: Seq<Entry>) -> Seq<char>
    decreases es.len(),
{
    if es.len() == 0 {
        Seq::empty()
    } else {
        entries_text(es.drop_last()) + entry_text(es.last())
    }
}

/// The `service` field and its comma, if a service name is present.
pub open spec fn service_text(service: Option<Seq<char>>) -> Seq<char> {
    match service {
        Some(s) => json_string_text("service"@) + ":"@ + json_string_text(s) + ","@,
        None => Seq::empty(),
    }
}

/// The `ts` field and its comma, for clock text `ts`.
pub open spec fn ts_field_text(ts: Seq<char>) -> Seq<char> {
    json_string_text("ts"@) + ":"@ + json_string_text(ts) + ","@
}

/// The `ts` field and its comma, if clock text is present.
pub open spec fn ts_text(ts: Option<Seq<char>>) -> Seq<char> {
    match ts {
        Some(t) => ts_field_text(t),
        None => Seq::empty(),
    }
}

/// The view of an optional borrowed string.
pub open spec fn opt_str_view(s: Option<&str>) -> Option<Seq<char>> {
    match s {
        Some(t) => Some(t@),
        None => None,
    }
}

/// The opening of a record: the brace and the fixed fields, up to and
/// including the message.
pub open spec fn header_text(
    service: Option<Seq<char>>,
    ts: Option<Seq<char>>,
    level: Level,
    msg: Seq<char>,
) -> Seq<char> {
    "{"@ + service_text(service) + json_string_text("level"@) + ":"@ + json_string_text(
        level_text(level),
    ) + ","@ + ts_text(ts) + json_string_text("msg"@) + ":"@ + json_string_text(msg)
}

/// The complete text of one record: one JSON object, fields in fixed
/// order, every key escaped like a string value.
pub open spec fn record_text(
    service: Option<Seq<char>>,
    ts: Option<Seq<char>>,
    level: Level,
    msg: Seq<char>,
    entries: Seq<Entry>,
) -> Seq<char> {
    header_text(service, ts, level, msg) + entries_text(entries) + "}"@
}

impl Atom {
    /// Writes the atom's JSON token: a bare number for the integer kinds,
    /// the pre-rendered token for a float, a string token or boolean
    /// literal otherwise.
    fn write_value<O: Outputter>(&self, outputter: &mut O)
        ensures
            final(outputter).text() == old(outputter).text() + atom_text(*self),
    {
        match self {
            Atom::Float(s) => outputter.write_str(s.as_str()),
            Atom::Int(i) => {
                let s = itoa_base10(*i);
                outputter.write_str(s.as_str());
            },
            Atom::Uint(u) => {
                let s = utoa_base10(*u);
                outputter.write_str(s.as_str());
            },
            Atom::Text(s) => outputter.write_json_string(s.as_str()),
            Atom::Bool(b) => outputter.write_json_bool(*b),
        }
    }
}

/// Writes a JSON array of atoms, a comma before every element but the
/// first; an empty sequence renders as `[]`.
fn write_array<O: Outputter>(outputter: &mut O, atoms: &Vec<Atom>)
    ensures
        final(outputter).text() == old(outputter).text() + array_text(atoms@),
{
    let ghost t0 = outputter.text();
    outputter.write_json_start_array();
    let mut n: usize = 0;
    while n < atoms.len()
        invariant
            n <= atoms@.len(),
            outputter.text() == t0 + "["@ + array_items_text(atoms@.take(n as int)),
        decreases atoms@.len() - n,
    {
        if n != 0 {
            outputter.write_json_comma();
        }
        atoms[n].write_value(outputter);
        proof {
            let pre = atoms@.take(n as int);
            let post = atoms@.take(n + 1);
            assert(post.drop_last() =~= pre);
            assert(post.last() == atoms@[n as int]);
            assert(outputter.text() =~= t0 + "["@ + array_items_text(post));
        }
        n = n + 1;
    }
    outputter.write_json_end_array();
    proof {
        assert(atoms@.take(atoms@.len() as int) =~= atoms@);
        assert(outputter.text() =~= t0 + array_text(atoms@));
    }
}

/// The `ts` field: its key, the clock text as a string token, a comma.
fn write_isotimestamp<O: Outputter>(outputter: &mut O, ts: &str)
    ensures
        final(outputter).text() == old(outputter).text() + ts_field_text(ts@),
{
    let ghost t0 = outputter.text();
    outputter.write_json_key("ts");
    outputter.write_json_string(ts);
    outputter.write_json_comma();
    proof {
        assert(outputter.text() =~= t0 + ts_field_text(ts@));
    }
}

/// Regrouping one appended piece from the accumulated text onto the
/// accumulator; the sequences stay opaque, so the step is cheap.
proof fn lemma_grow(t: Seq<char>, acc: Seq<char>, x: Seq<char>)
    ensures
        (t + acc) + x == t + (acc + x),
{
    assert((t + acc) + x =~= t + (acc + x));
}

/// Writes the `service` field and its comma, if a service name is present.
fn write_service_field<O: Outputter>(outputter: &mut O, service_name: Option<&str>)
    ensures
        final(outputter).text() == old(outputter).text() + service_text(
            opt_str_view(service_name),
        ),
{
    let ghost t0 = outputter.text();
    match service_name {
        Some(s) => {
            outputter.write_json_key("service");
            outputter.write_json_string(s);
            outputter.write_json_comma();
            proof {
                assert(outputter.text() =~= t0 + service_text(opt_str_view(service_name)));
            }
        },
        None => {
            proof {
                assert(outputter.text() =~= t0 + service_text(opt_str_view(service_name)));
            }
        },
    }
}

/// Writes the opening of a record: the brace and the fixed fields, up to
/// and including the message.
fn write_header<O: Outputter>(
    service_name: Option<&str>,
    outputter: &mut O,
    ts: Option<&str>,
    msg: &str,
    level: Level,
)
    ensures
        final(outputter).text() == old(outputter).text() + header_text(
            opt_str_view(service_name),
            opt_str_view(ts),
            level,
            msg@,
        ),
{
    let ghost t0 = outputter.text();
    let ghost mut acc: Seq<char> = "{"@;
    outputter.write_json_start();
    write_service_field(outputter, service_name);
    proof {
        lemma_grow(t0, acc, service_text(opt_str_view(service_name)));
        acc = acc + service_text(opt_str_view(service_name));
    }
    outputter.write_json_key("level");
    proof {
        lemma_grow(t0, acc, json_string_text("level"@));
        acc = acc + json_string_text("level"@);
        lemma_grow(t0, acc, ":"@);
        acc = acc + ":"@;
    }
    outputter.write_json_string(level.as_str());
    proof {
        lemma_grow(t0, acc, json_string_text(level_text(level)));
        acc = acc + json_string_text(level_text(level));
    }
    outputter.write_json_comma();
    proof {
        lemma_grow(t0, acc, ","@);
        acc = acc + ","@;
    }
    match ts {
        Some(t) => write_isotimestamp(outputter, t),
        None => {},
    }
    proof {
        lemma_grow(t0, acc, ts_text(opt_str_view(ts)));
        if ts is None {
            assert(acc + ts_text(opt_str_view(ts)) =~= acc);
        }
        acc = acc + ts_text(opt_str_view(ts));
    }
    outputter.write_json_key("msg");
    proof {
        lemma_grow(t0, acc, json_string_text("msg"@));
        acc = acc + json_string_text("msg"@);
        lemma_grow(t0, acc, ":"@);
        acc = acc + ":"@;
    }
    outputter.write_json_string(msg);
    proof {
        lemma_grow(t0, acc, json_string_text(msg@));
        acc = acc + json_string_text(msg@);
        assert(acc == header_text(opt_str_view(service_name), opt_str_view(ts), level, msg@));
    }
}

/// The record assembly pass shared by the entry points: one object, fields
/// in fixed order, then the record terminator.
fn log_core<O: Outputter>(
    service_name: Option<&str>,
    outputter: &mut O,
    ts: Option<&str>,
    msg: &str,
    level: Level,
    entries: &Vec<Entry>,
)
    ensures
        final(outputter).text() == old(outputter).text() + record_text(
            opt_str_view(service_name),
            opt_str_view(ts),
            level,
            msg@,
            entries@,
        ) + "\n"@,
{
    let ghost t0 = outputter.text();
    write_header(service_name, outputter, ts, msg, level);
    let ghost hdr = outputter.text();
    let mut idx: usize = 0;
    while idx < entries.len()
        invariant
            idx <= entries@.len(),
            outputter.text() == hdr + entries_text(entries@.take(idx as int)),
        decreases entries@.len() - idx,
    {
        let e = &entries[idx];
        let ghost tpre = outputter.text();
        outputter.write_json_comma();
        outputter.write_json_key(e.key.as_str());
        match &e.value {
            Value::Atom(a) => a.write_value(outputter),
            Value::Array(arr) => write_array(outputter, arr),
            Value::Optatom(oa) => match oa {
                Some(a) => a.write_value(outputter),
                None => outputter.write_json_null(),
            },
            Value::Optarray(oarr) => match oarr {
                Some(arr) => write_array(outputter, arr),
                None => outputter.write_json_null(),
            },
        }
        proof {
            let pre = entries@.take(idx as int);
            let post = entries@.take(idx + 1);
            assert(post.drop_last() =~= pre);
            assert(post.last() == entries@[idx as int]);
            assert(outputter.text() =~= tpre + entry_text(entries@[idx as int]));
            assert(outputter.text() =~= hdr + entries_text(post));
        }
        idx = idx + 1;
    }
    outputter.write_json_end();
    outputter.endline();
    proof {
        assert(entries@.take(entries@.len() as int) =~= entries@);
        assert(outputter.text() =~= t0 + record_text(
            opt_str_view(service_name),
            opt_str_view(ts),
            level,
            msg@,
            entries@,
        ) + "\n"@);
    }
}

/// Encodes one record — optional service name, severity level, message
/// text, and entries in order — as exactly one JSON object handed to the
/// sink, then terminates the record.
pub fn log<O: Outputter>(
    service_name: Option<&str>,
    outputter: &mut O,
    msg: &str,
    level: Level,
    entries: &Vec<Entry>,
)
    ensures
        final(outputter).text() == old(outputter).text() + record_text(
            opt_str_view(service_name),
            None,
            level,
            msg@,
            entries@,
        ) + "\n"@,
{
    log_core(service_name, outputter, None, msg, level, entries);
}

/// Relies on `chrono::Utc::now` and `chrono::DateTime::to_rfc3339_opts`:
/// the current wall-clock time in RFC 3339 form with microseconds and a
/// `Z` suffix.  Nothing is promised of the text; it depends on the clock.
#[verifier::external_body]
fn now_rfc3339_micros() -> (r: String) {
    chrono::Utc::now().to_rfc3339_opts(chrono::SecondsFormat::Micros, true)
}

/// Encodes one record as `log` does, with a `ts` field carrying the
/// current wall-clock time between the level and the message.
pub fn log_with_timestamp<O: Outputter>(
    service_name: Option<&str>,
    outputter: &mut O,
    msg: &str,
    level: Level,
    entries: &Vec<Entry>,
)
    ensures
        exists|clock: Seq<char>|
            final(outputter).text() == old(outputter).text() + record_text(
                opt_str_view(service_name),
                Some(clock),
                level,
                msg@,
                entries@,
            ) + "\n"@,
{
    let ghost t0 = outputter.text();
    let ts = now_rfc3339_micros();
    log_core(service_name, outputter, Some(ts.as_str()), msg, level, entries);
    proof {
        assert(outputter.text() == t0 + record_text(
            opt_str_view(service_name),
            Some(ts@),
            level,
            msg@,
            entries@,
        ) + "\n"@);
    }
}

} // verus!

