//! Canonical compact JSON text: the byte form whose SHA-256 digests identify
//! plans, observations and records. Objects keep their field order; strings
//! are escaped as `"` `\` and control characters only.
use crate::text::{chars_of, char_from_ascii_code, owned, push_str};
use vstd::prelude::*;

verus! {

/// A JSON value.
pub enum JsonV {
    Null,
    Bool(bool),
    Nat(nat),
    Int(int),
    Str(Seq<char>),
    Arr(Seq<JsonV>),
    Obj(Seq<(Seq<char>, JsonV)>),
}

/// Lowercase hexadecimal digit for `n < 16`.
pub open spec fn hex_digit(n: nat) -> char {
    if n < 10 {
        (48 + n) as char
    } else {
        (87 + n) as char
    }
}

/// Decimal digits of a natural number.
pub open spec fn decimal(n: nat) -> Seq<char>
    decreases n,
{
    if n < 10 {
        seq![hex_digit(n)]
    } else {
        decimal(n / 10).push(hex_digit(n % 10))
    }
}

/// Escape of one character inside a JSON string.
pub open spec fn escape_char(c: char) -> Seq<char> {
    if c == '"' {
        seq!['\\', '"']
    } else if c == '\\' {
        seq!['\\', '\\']
    } else if c == '\n' {
        seq!['\\', 'n']
    } else if c == '\r' {
        seq!['\\', 'r']
    } else if c == '\t' {
        seq!['\\', 't']
    } else if (c as u32) == 8 {
        seq!['\\', 'b']
    } else if (c as u32) == 12 {
        seq!['\\', 'f']
    } else if (c as u32) < 32 {
        seq!['\\', 'u', '0', '0', hex_digit((c as u32) as nat / 16), hex_digit((c as u32) as nat % 16)]
    } else {
        seq![c]
    }
}

/// Escape of a character sequence.
pub open spec fn escape(s: Seq<char>) -> Seq<char>
    decreases s.len(),
{
    if s.len() == 0 {
        Seq::empty()
    } else {
        escape(s.drop_last()) + escape_char(s.last())
    }
}

/// A JSON string literal.
pub open spec fn quoted(s: Seq<char>) -> Seq<char> {
    seq!['"'] + escape(s) + seq!['"']
}

/// Compact JSON text of a value.
pub open spec fn enc(j: JsonV) -> Seq<char>
    decreases j,
{
    match j {
        JsonV::Null => seq!['n', 'u', 'l', 'l'],
        JsonV::Bool(b) => if b {
            seq!['t', 'r', 'u', 'e']
        } else {
            seq!['f', 'a', 'l', 's', 'e']
        },
        JsonV::Nat(n) => decimal(n),
        JsonV::Int(i) => if i < 0 {
            seq!['-'] + decimal((-i) as nat)
        } else {
            decimal(i as nat)
        },
        JsonV::Str(s) => quoted(s),
        JsonV::Arr(items) => seq!['['] + enc_items(items) + seq![']'],
        JsonV::Obj(fields) => seq!['{'] + enc_fields(fields) + seq!['}'],
    }
}

/// Comma-separated texts of array elements.
pub open spec fn enc_items(items: Seq<JsonV>) -> Seq<char>
    decreases items,
{
    if items.len() == 0 {
        Seq::empty()
    } else if items.len() == 1 {
        enc(items[0])
    } else {
        enc_items(items.drop_last()) + seq![','] + enc(items.last())
    }
}

/// Comma-separated `"key":value` texts of object fields.
pub open spec fn enc_fields(fields: Seq<(Seq<char>, JsonV)>) -> Seq<char>
    decreases fields,
{
    if fields.len() == 0 {
        Seq::empty()
    } else if fields.len() == 1 {
        quoted(fields[0].0) + seq![':'] + enc(fields[0].1)
    } else {
        enc_fields(fields.drop_last()) + seq![','] + quoted(fields.last().0) + seq![':'] + enc(
            fields.last().1,
        )
    }
}

/// Encoded JSON text together with the value it encodes.
pub struct JsonText {
    pub text: String,
    pub value: Ghost<JsonV>,
}

impl JsonText {
    /// Well formed: the text is the encoding of the value.
    pub open spec fn wf(&self) -> bool {
        self.text@ == enc(self.value@)
    }

    pub fn null() -> (r: JsonText)
        ensures
            r.wf(),
            r.value@ == JsonV::Null,
    {
        let mut text = String::new();
        text.push('n');
        text.push('u');
        text.push('l');
        text.push('l');
        assert(text@ =~= seq!['n', 'u', 'l', 'l']);
        JsonText { text, value: Ghost(JsonV::Null) }
    }

    pub fn boolean(b: bool) -> (r: JsonText)
        ensures
            r.wf(),
            r.value@ == JsonV::Bool(b),
    {
        let mut text = String::new();
        if b {
            text.push('t');
            text.push('r');
            text.push('u');
            text.push('e');
            assert(text@ =~= seq!['t', 'r', 'u', 'e']);
        } else {
            text.push('f');
            text.push('a');
            text.push('l');
            text.push('s');
            text.push('e');
            assert(text@ =~= seq!['f', 'a', 'l', 's', 'e']);
        }
        JsonText { text, value: Ghost(JsonV::Bool(b)) }
    }

    pub fn natural(n: u64) -> (r: JsonText)
        ensures
            r.wf(),
            r.value@ == JsonV::Nat(n as nat),
    {
        let mut text = String::new();
        write_decimal(n, &mut text);
        assert(text@ =~= decimal(n as nat));
        JsonText { text, value: Ghost(JsonV::Nat(n as nat)) }
    }

    pub fn integer(i: i64) -> (r: JsonText)
        ensures
            r.wf(),
            r.value@ == JsonV::Int(i as int),
    {
        let mut text = String::new();
        if i < 0 {
            text.push('-');
            let m: u64 = ((-(i + 1)) as u64) + 1;
            write_decimal(m, &mut text);
            assert((-(i as int)) as nat == m as nat);
            assert(text@ =~= seq!['-'] + decimal((-(i as int)) as nat));
        } else {
            write_decimal(i as u64, &mut text);
            assert(text@ =~= decimal(i as nat));
        }
        JsonText { text, value: Ghost(JsonV::Int(i as int)) }
    }

    pub fn string(s: &str) -> (r: JsonText)
        ensures
            r.wf(),
            r.value@ == JsonV::Str(s@),
    {
        let mut text = String::new();
        write_quoted(s, &mut text);
        assert(text@ =~= quoted(s@));
        JsonText { text, value: Ghost(JsonV::Str(s@)) }
    }

    /// A string value, or `null` when absent.
    pub fn opt_string(s: &Option<String>) -> (r: JsonText)
        ensures
            r.wf(),
            r.value@ == opt_str(opt_view(*s)),
    {
        match s {
            Some(v) => JsonText::string(v.as_str()),
            None => JsonText::null(),
        }
    }

    pub fn array(items: Vec<JsonText>) -> (r: JsonText)
        requires
            forall|i: int| 0 <= i < items@.len() ==> #[trigger] items@[i].wf(),
        ensures
            r.wf(),
            r.value@ == JsonV::Arr(values_of(items@)),
    {
        let ghost vals = values_of(items@);
        let mut text = String::new();
        text.push('[');
        let mut i: usize = 0;
        while i < items.len()
            invariant
                i <= items.len(),
                vals == values_of(items@),
                forall|k: int| 0 <= k < items@.len() ==> #[trigger] items@[k].wf(),
                text@ == seq!['['] + enc_items(vals.take(i as int)),
            decreases items.len() - i,
        {
            let ghost before = text@;
            if i > 0 {
                text.push(',');
            }
            push_str(&mut text, items[i].text.as_str());
            proof {
                let t = vals.take(i + 1);
                assert(t.drop_last() =~= vals.take(i as int));
                assert(t.last() == items@[i as int].value@);
                assert(items@[i as int].wf());
                assert(t.len() == i + 1);
                if i > 0 {
                    assert(enc_items(t) == enc_items(t.drop_last()) + seq![','] + enc(t.last()));
                } else {
                    assert(enc_items(t) == enc(t[0]));
                }
                if i == 0 {
                    assert(vals.take(0) =~= Seq::<JsonV>::empty());
                    assert(text@ =~= seq!['['] + enc_items(t));
                } else {
                    assert(text@ =~= seq!['['] + enc_items(t));
                }
            }
            i = i + 1;
        }
        text.push(']');
        assert(vals.take(items.len() as int) =~= vals);
        assert(text@ =~= seq!['['] + enc_items(vals) + seq![']']);
        JsonText { text, value: Ghost(JsonV::Arr(vals)) }
    }

    pub fn object(fields: Vec<(String, JsonText)>) -> (r: JsonText)
        requires
            forall|i: int| 0 <= i < fields@.len() ==> #[trigger] fields@[i].1.wf(),
        ensures
            r.wf(),
            r.value@ == JsonV::Obj(fields_of(fields@)),
    {
        let ghost fs = fields_of(fields@);
        let mut text = String::new();
        text.push('{');
        let mut i: usize = 0;
        while i < fields.len()
            invariant
                i <= fields.len(),
                fs == fields_of(fields@),
                forall|k: int| 0 <= k < fields@.len() ==> #[trigger] fields@[k].1.wf(),
                text@ == seq!['{'] + enc_fields(fs.take(i as int)),
            decreases fields.len() - i,
        {
            if i > 0 {
                text.push(',');
            }
            write_quoted(fields[i].0.as_str(), &mut text);
            text.push(':');
            push_str(&mut text, fields[i].1.text.as_str());
            proof {
                let t = fs.take(i + 1);
                assert(t.drop_last() =~= fs.take(i as int));
                assert(t.last() == (fields@[i as int].0@, fields@[i as int].1.value@));
                assert(fields@[i as int].1.wf());
                assert(t.len() == i + 1);
                if i > 0 {
                    assert(enc_fields(t) == enc_fields(t.drop_last()) + seq![','] + quoted(t.last().0) + seq![':'] + enc(t.last().1));
                } else {
                    assert(enc_fields(t) == quoted(t[0].0) + seq![':'] + enc(t[0].1));
                }
                if i == 0 {
                    assert(fs.take(0) =~= Seq::<(Seq<char>, JsonV)>::empty());
                    assert(text@ =~= seq!['{'] + enc_fields(t));
                } else {
                    assert(text@ =~= seq!['{'] + enc_fields(t));
                }
            }
            i = i + 1;
        }
        text.push('}');
        assert(fs.take(fields.len() as int) =~= fs);
        assert(text@ =~= seq!['{'] + enc_fields(fs) + seq!['}']);
        JsonText { text, value: Ghost(JsonV::Obj(fs)) }
    }
}

/// The values of encoded texts.
pub open spec fn values_of(items: Seq<JsonText>) -> Seq<JsonV> {
    Seq::new(items.len(), |i: int| items[i].value@)
}

/// The fields of encoded texts.
pub open spec fn fields_of(fields: Seq<(String, JsonText)>) -> Seq<(Seq<char>, JsonV)> {
    Seq::new(fields.len(), |i: int| (fields[i].0@, fields[i].1.value@))
}

/// View of an optional string.
pub open spec fn opt_view(s: Option<String>) -> Option<Seq<char>> {
    match s {
        Some(v) => Some(v@),
        None => None,
    }
}

/// A JSON string, or `null`.
pub open spec fn opt_str(s: Option<Seq<char>>) -> JsonV {
    match s {
        Some(v) => JsonV::Str(v),
        None => JsonV::Null,
    }
}

/// Compact canonical JSON bytes: the UTF-8 encoding of the text.
pub fn canonical_json(j: &JsonText) -> (r: Vec<u8>)
    requires
        j.wf(),
    ensures
        r@ == vstd::utf8::encode_utf8(enc(j.value@)),
{
    vstd::slice::slice_to_vec(j.text.as_str().as_bytes())
}

/// Appends a named field to an object under construction.
pub fn push_field(fields: &mut Vec<(String, JsonText)>, name: &str, value: JsonText)
    requires
        value.wf(),
        forall|i: int| 0 <= i < old(fields)@.len() ==> #[trigger] old(fields)@[i].1.wf(),
    ensures
        fields_of(final(fields)@) == fields_of(old(fields)@).push((name@, value.value@)),
        forall|i: int| 0 <= i < final(fields)@.len() ==> #[trigger] final(fields)@[i].1.wf(),
{
    let ghost before = fields@;
    fields.push((owned(name), value));
    proof {
        assert(fields_of(fields@) =~= fields_of(before).push((name@, value.value@)));
        assert forall|i: int| 0 <= i < fields@.len() implies #[trigger] fields@[i].1.wf() by {
            if i < before.len() {
                assert(fields@[i] == before[i]);
            }
        }
    }
}

/// Appends an element to an array under construction.
pub fn push_value(items: &mut Vec<JsonText>, value: JsonText)
    requires
        value.wf(),
        forall|i: int| 0 <= i < old(items)@.len() ==> #[trigger] old(items)@[i].wf(),
    ensures
        values_of(final(items)@) == values_of(old(items)@).push(value.value@),
        forall|i: int| 0 <= i < final(items)@.len() ==> #[trigger] final(items)@[i].wf(),
{
    let ghost before = items@;
    items.push(value);
    proof {
        assert(values_of(items@) =~= values_of(before).push(value.value@));
        assert forall|i: int| 0 <= i < items@.len() implies #[trigger] items@[i].wf() by {
            if i < before.len() {
                assert(items@[i] == before[i]);
            }
        }
    }
}

/// A named object field for the builder.
pub fn field(name: &str, value: JsonText) -> (r: (String, JsonText))
    ensures
        r.0@ == name@,
        r.1 == value,
{
    (owned(name), value)
}

fn digit_char(d: u64) -> (c: char)
    requires
        d < 16,
    ensures
        c == hex_digit(d as nat),
{
    if d < 10 {
        char_from_ascii_code((48 + d) as u32)
    } else {
        char_from_ascii_code((87 + d) as u32)
    }
}

/// Appends the decimal digits of `n`.
pub fn write_decimal(n: u64, out: &mut String)
    ensures
        final(out)@ == old(out)@ + decimal(n as nat),
    decreases n,
{
    if n >= 10 {
        write_decimal(n / 10, out);
    }
    let c = digit_char(n % 10);
    out.push(c);
    proof {
        if n >= 10 {
            assert(decimal(n as nat) == decimal((n / 10) as nat).push(hex_digit((n % 10) as nat)));
        }
    }
}

/// Appends a JSON string literal.
pub fn write_quoted(s: &str, out: &mut String)
    ensures
        final(out)@ == old(out)@ + quoted(s@),
{
    let ghost start = out@;
    let cs = chars_of(s);
    out.push('"');
    let mut i: usize = 0;
    while i < cs.len()
        invariant
            i <= cs.len(),
            cs@ == s@,
            out@ == start + seq!['"'] + escape(cs@.take(i as int)),
        decreases cs.len() - i,
    {
        let c = cs[i];
        let ghost before = out@;
        write_escaped_char(c, out);
        proof {
            let t = cs@.take(i + 1);
            assert(t.drop_last() =~= cs@.take(i as int));
            assert(t.last() == c);
            assert(out@ =~= start + seq!['"'] + escape(t));
        }
        i = i + 1;
    }
    out.push('"');
    assert(cs@.take(cs.len() as int) =~= cs@);
    assert(out@ =~= start + quoted(s@));
}

fn write_escaped_char(c: char, out: &mut String)
    ensures
        final(out)@ == old(out)@ + escape_char(c),
{
    let ghost start = out@;
    let code = c as u32;
    if c == '"' {
        out.push('\\');
        out.push('"');
    } else if c == '\\' {
        out.push('\\');
        out.push('\\');
    } else if c == '\n' {
        out.push('\\');
        out.push('n');
    } else if c == '\r' {
        out.push('\\');
        out.push('r');
    } else if c == '\t' {
        out.push('\\');
        out.push('t');
    } else if code == 8 {
        out.push('\\');
        out.push('b');
    } else if code == 12 {
        out.push('\\');
        out.push('f');
    } else if code < 32 {
        out.push('\\');
        out.push('u');
        out.push('0');
        out.push('0');
        let hi = digit_char((code / 16) as u64);
        let lo = digit_char((code % 16) as u64);
        out.push(hi);
        out.push(lo);
    } else {
        out.push(c);
    }
    assert(out@ =~= start + escape_char(c));
}

} // verus!
