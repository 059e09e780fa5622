//! JSON value model and the canonical compact serialization.
//!
//! `JsonValue` is the executable value type used for node properties; its
//! mathematical model is `JsonModel`. The canonical text form (object keys in
//! stored order, no added white space, integers in decimal, strings with the
//! usual escapes) is defined by the `ser_*` spec functions, and the verified
//! writers below produce exactly that text.
use vstd::prelude::*;
use vstd::string::*;

verus! {

/// Mathematical model of a JSON-like value. Object members keep their order.
#[verifier::ext_equal]
pub enum JsonModel {
    Null,
    Bool(bool),
    Int(int),
    Text(Seq<char>),
    Arr(Seq<JsonModel>),
    Obj(Seq<(Seq<char>, JsonModel)>),
}

/// Executable JSON-like value: the property payload carried by tree nodes.
/// Numbers are signed 64-bit integers; member order is kept as written.
#[derive(Debug)]
pub enum JsonValue {
    Null,
    Bool(bool),
    Int(i64),
    Text(String),
    Arr(Vec<JsonValue>),
    Obj(Vec<(String, JsonValue)>),
}

pub open spec fn json_model_of(v: JsonValue) -> JsonModel
    decreases v,
{
    match v {
        JsonValue::Null => JsonModel::Null,
        JsonValue::Bool(b) => JsonModel::Bool(b),
        JsonValue::Int(i) => JsonModel::Int(i as int),
        JsonValue::Text(s) => JsonModel::Text(s@),
        JsonValue::Arr(es) => JsonModel::Arr(json_models_of(es@)),
        JsonValue::Obj(ms) => JsonModel::Obj(json_member_models_of(ms@)),
    }
}

pub open spec fn json_models_of(s: Seq<JsonValue>) -> Seq<JsonModel>
    decreases s,
{
    if s.len() == 0 {
        Seq::empty()
    } else {
        seq![json_model_of(s[0])] + json_models_of(s.drop_first())
    }
}

pub open spec fn json_member_models_of(s: Seq<(String, JsonValue)>) -> Seq<(Seq<char>, JsonModel)>
    decreases s,
{
    if s.len() == 0 {
        Seq::empty()
    } else {
        seq![(s[0].0@, json_model_of(s[0].1))] + json_member_models_of(s.drop_first())
    }
}

impl View for JsonValue {
    type V = JsonModel;

    open spec fn view(&self) -> JsonModel {
        json_model_of(*self)
    }
}

pub broadcast proof fn lemma_json_models_of_len(s: Seq<JsonValue>)
    ensures
        (#[trigger] json_models_of(s)).len() == s.len(),
    decreases s,
{
    if s.len() > 0 {
        lemma_json_models_of_len(s.drop_first());
    }
}

pub broadcast proof fn lemma_json_models_of_index(s: Seq<JsonValue>, i: int)
    requires
        0 <= i < s.len(),
    ensures
        #[trigger] json_models_of(s)[i] == json_model_of(s[i]),
    decreases s,
{
    lemma_json_models_of_len(s);
    if i > 0 {
        lemma_json_models_of_index(s.drop_first(), i - 1);
    }
}

pub broadcast proof fn lemma_json_models_of_snoc(s: Seq<JsonValue>, v: JsonValue)
    ensures
        #[trigger] json_models_of(s.push(v)) == json_models_of(s).push(json_model_of(v)),
    decreases s,
{
    if s.len() == 0 {
        assert(s.push(v).drop_first() =~= s);
        assert(json_models_of(s.push(v)) =~= json_models_of(s).push(json_model_of(v)));
    } else {
        assert(s.push(v).drop_first() =~= s.drop_first().push(v));
        lemma_json_models_of_snoc(s.drop_first(), v);
        assert(json_models_of(s.push(v)) =~= json_models_of(s).push(json_model_of(v)));
    }
}

pub broadcast proof fn lemma_json_member_models_of_snoc(s: Seq<(String, JsonValue)>, m: (String, JsonValue))
    ensures
        #[trigger] json_member_models_of(s.push(m)) == json_member_models_of(s).push(
            (m.0@, json_model_of(m.1)),
        ),
    decreases s,
{
    if s.len() == 0 {
        assert(s.push(m).drop_first() =~= s);
        assert(json_member_models_of(s.push(m)) =~= json_member_models_of(s).push(
            (m.0@, json_model_of(m.1)),
        ));
    } else {
        assert(s.push(m).drop_first() =~= s.drop_first().push(m));
        lemma_json_member_models_of_snoc(s.drop_first(), m);
        assert(json_member_models_of(s.push(m)) =~= json_member_models_of(s).push(
            (m.0@, json_model_of(m.1)),
        ));
    }
}

impl JsonValue {
    /// True exactly when the value is a JSON object.
    pub fn is_object(&self) -> (r: bool)
        ensures
            r == (self@ is Obj),
    {
        match self {
            JsonValue::Obj(_) => true,
            _ => false,
        }
    }

    /// An empty JSON object, the default property payload of a fresh node.
    pub fn empty_object() -> (r: JsonValue)
        ensures
            r@ == JsonModel::Obj(Seq::<(Seq<char>, JsonModel)>::empty()),
    {
        JsonValue::Obj(Vec::new())
    }

    /// Deep copy; the copy has the same model as the original.
    #[verifier::loop_isolation(false)]
    pub fn duplicate(&self) -> (r: JsonValue)
        ensures
            r@ == self@,
        decreases *self,
    {
        match self {
            JsonValue::Null => JsonValue::Null,
            JsonValue::Bool(b) => JsonValue::Bool(*b),
            JsonValue::Int(i) => JsonValue::Int(*i),
            JsonValue::Text(s) => JsonValue::Text(s.clone()),
            JsonValue::Arr(es) => {
                let mut out: Vec<JsonValue> = Vec::new();
                let mut i: usize = 0;
                while i < es.len()
                    invariant
                        0 <= i <= es@.len(),
                        json_models_of(out@) == json_models_of(es@.take(i as int)),
                        out@.len() == i,
                    decreases es@.len() - i,
                {
                    proof {
                        assert(decreases_to!(*self => *es));
                        assert(decreases_to!(*es => es@[i as int]));
                    }
                    let d = es[i].duplicate();
                    let ghost prev = out@;
                    out.push(d);
                    proof {
                        lemma_json_models_of_snoc(prev, d);
                        assert(es@.take(i as int + 1) =~= es@.take(i as int).push(es@[i as int]));
                        lemma_json_models_of_snoc(es@.take(i as int), es@[i as int]);
                    }
                    i += 1;
                }
                proof {
                    assert(es@.take(es@.len() as int) =~= es@);
                }
                JsonValue::Arr(out)
            },
            JsonValue::Obj(ms) => {
                let mut out: Vec<(String, JsonValue)> = Vec::new();
                let mut i: usize = 0;
                while i < ms.len()
                    invariant
                        0 <= i <= ms@.len(),
                        json_member_models_of(out@) == json_member_models_of(ms@.take(i as int)),
                        out@.len() == i,
                    decreases ms@.len() - i,
                {
                    proof {
                        assert(decreases_to!(*self => *ms));
                        assert(decreases_to!(*ms => ms@[i as int]));
                        assert(decreases_to!(ms@[i as int] => ms@[i as int].1));
                    }
                    let k = ms[i].0.clone();
                    let d = ms[i].1.duplicate();
                    let ghost prev = out@;
                    out.push((k, d));
                    proof {
                        lemma_json_member_models_of_snoc(prev, (k, d));
                        assert(ms@.take(i as int + 1) =~= ms@.take(i as int).push(ms@[i as int]));
                        lemma_json_member_models_of_snoc(ms@.take(i as int), ms@[i as int]);
                    }
                    i += 1;
                }
                proof {
                    assert(ms@.take(ms@.len() as int) =~= ms@);
                }
                JsonValue::Obj(out)
            },
        }
    }
}


/// The decimal digit characters.
pub open spec fn digit_char(d: int) -> char {
    if d == 0 { '0' } else if d == 1 { '1' } else if d == 2 { '2' } else if d == 3 { '3' }
    else if d == 4 { '4' } else if d == 5 { '5' } else if d == 6 { '6' } else if d == 7 { '7' }
    else if d == 8 { '8' } else { '9' }
}

/// Lower-case hexadecimal digit characters.
pub open spec fn hex_char(d: int) -> char {
    if d < 10 { digit_char(d) }
    else if d == 10 { 'a' } else if d == 11 { 'b' } else if d == 12 { 'c' }
    else if d == 13 { 'd' } else if d == 14 { 'e' } else { 'f' }
}

/// Canonical escape of one character inside a JSON string literal.
pub open spec fn esc_char(c: char) -> Seq<char> {
    if c == '"' { seq!['\\', '"'] }
    else if c == '\\' { seq!['\\', '\\'] }
    else if c as int == 0x08 { seq!['\\', 'b'] }
    else if c as int == 0x09 { seq!['\\', 't'] }
    else if c as int == 0x0A { seq!['\\', 'n'] }
    else if c as int == 0x0C { seq!['\\', 'f'] }
    else if c as int == 0x0D { seq!['\\', 'r'] }
    else if (c as int) < 0x20 {
        seq!['\\', 'u', '0', '0', hex_char(c as int / 16), hex_char(c as int % 16)]
    } else { seq![c] }
}

/// Canonical body of a JSON string literal: each character escaped in order.
pub open spec fn ser_str_body(s: Seq<char>) -> Seq<char>
    decreases s.len(),
{
    if s.len() == 0 { Seq::empty() } else { esc_char(s[0]) + ser_str_body(s.drop_first()) }
}

/// Canonical JSON string literal, quotes included.
pub open spec fn ser_text(s: Seq<char>) -> Seq<char> {
    seq!['"'] + ser_str_body(s) + seq!['"']
}

/// Decimal digits of a non-negative integer, no leading zeros.
pub open spec fn ser_nat(n: int) -> Seq<char>
    decreases n,
{
    if n < 10 { seq![digit_char(n)] } else { ser_nat(n / 10) + seq![digit_char(n % 10)] }
}

/// Canonical decimal form of an integer.
pub open spec fn ser_int(i: int) -> Seq<char> {
    if i < 0 { seq!['-'] + ser_nat(-i) } else { ser_nat(i) }
}

/// Canonical text of a JSON value: compact, member order kept.
pub open spec fn ser_value(j: JsonModel) -> Seq<char>
    decreases j,
{
    match j {
        JsonModel::Null => "null"@,
        JsonModel::Bool(b) => if b { "true"@ } else { "false"@ },
        JsonModel::Int(i) => ser_int(i),
        JsonModel::Text(s) => ser_text(s),
        JsonModel::Arr(es) => seq!['['] + ser_elems(es) + seq![']'],
        JsonModel::Obj(ms) => seq!['{'] + ser_members(ms) + seq!['}'],
    }
}

/// Comma-separated canonical texts of array elements.
pub open spec fn ser_elems(es: Seq<JsonModel>) -> Seq<char>
    decreases es,
{
    if es.len() == 0 {
        Seq::empty()
    } else if es.len() == 1 {
        ser_value(es[0])
    } else {
        ser_value(es[0]) + seq![','] + ser_elems(es.drop_first())
    }
}

/// Comma-separated canonical texts of object members, `"key":value` each.
pub open spec fn ser_members(ms: Seq<(Seq<char>, JsonModel)>) -> Seq<char>
    decreases ms,
{
    if ms.len() == 0 {
        Seq::empty()
    } else if ms.len() == 1 {
        ser_text(ms[0].0) + seq![':'] + ser_value(ms[0].1)
    } else {
        ser_text(ms[0].0) + seq![':'] + ser_value(ms[0].1) + seq![','] + ser_members(ms.drop_first())
    }
}

pub proof fn lemma_ser_str_body_snoc(t: Seq<char>, c: char)
    ensures
        ser_str_body(t.push(c)) == ser_str_body(t) + esc_char(c),
    decreases t.len(),
{
    if t.len() == 0 {
        assert(t.push(c)[0] == c);
        assert(t.push(c).drop_first() =~= t);
        assert(ser_str_body(t.push(c)) =~= ser_str_body(t) + esc_char(c));
    } else {
        assert(t.push(c).drop_first() =~= t.drop_first().push(c));
        lemma_ser_str_body_snoc(t.drop_first(), c);
        assert(ser_str_body(t.push(c)) =~= ser_str_body(t) + esc_char(c));
    }
}

pub proof fn lemma_ser_elems_snoc(es: Seq<JsonModel>, e: JsonModel)
    ensures
        es.len() == 0 ==> ser_elems(es.push(e)) == ser_value(e),
        es.len() > 0 ==> ser_elems(es.push(e)) == ser_elems(es) + seq![','] + ser_value(e),
    decreases es,
{
    if es.len() == 0 {
        assert(es.push(e)[0] == e);
    } else {
        assert(es.push(e).drop_first() =~= es.drop_first().push(e));
        lemma_ser_elems_snoc(es.drop_first(), e);
        if es.len() == 1 {
            assert(ser_elems(es.push(e)) =~= ser_elems(es) + seq![','] + ser_value(e));
        } else {
            assert(ser_elems(es.push(e)) =~= ser_elems(es) + seq![','] + ser_value(e));
        }
    }
}

pub proof fn lemma_ser_members_snoc(ms: Seq<(Seq<char>, JsonModel)>, m: (Seq<char>, JsonModel))
    ensures
        ms.len() == 0 ==> ser_members(ms.push(m)) == ser_text(m.0) + seq![':'] + ser_value(m.1),
        ms.len() > 0 ==> ser_members(ms.push(m)) == ser_members(ms) + seq![','] + ser_text(m.0)
            + seq![':'] + ser_value(m.1),
    decreases ms,
{
    if ms.len() == 0 {
        assert(ms.push(m)[0] == m);
    } else {
        assert(ms.push(m).drop_first() =~= ms.drop_first().push(m));
        lemma_ser_members_snoc(ms.drop_first(), m);
        assert(ser_members(ms.push(m)) =~= ser_members(ms) + seq![','] + ser_text(m.0) + seq![':']
            + ser_value(m.1));
    }
}

/// Relies on `String::push`: appends the given character to the end of the string.
pub assume_specification[ String::push ](s: &mut String, c: char)
    ensures
        final(s)@ == old(s)@.push(c),
;

/// Executable decimal digit for values below ten.
pub fn digit_of(d: u64) -> (c: char)
    requires
        d < 10,
    ensures
        c == digit_char(d as int),
{
    if d == 0 { '0' } else if d == 1 { '1' } else if d == 2 { '2' } else if d == 3 { '3' }
    else if d == 4 { '4' } else if d == 5 { '5' } else if d == 6 { '6' } else if d == 7 { '7' }
    else if d == 8 { '8' } else { '9' }
}

/// Executable lower-case hexadecimal digit for values below sixteen.
pub fn hex_of(d: u32) -> (c: char)
    requires
        d < 16,
    ensures
        c == hex_char(d as int),
{
    if d < 10 { digit_of(d as u64) }
    else if d == 10 { 'a' } else if d == 11 { 'b' } else if d == 12 { 'c' }
    else if d == 13 { 'd' } else if d == 14 { 'e' } else { 'f' }
}

/// Appends the decimal digits of `n` to `out`.
#[verifier::loop_isolation(false)]
pub fn write_nat(n: u64, out: &mut String)
    ensures
        final(out)@ == old(out)@ + ser_nat(n as int),
    decreases n,
{
    if n < 10 {
        out.push(digit_of(n));
        proof {
            assert(final(out)@ =~= old(out)@ + ser_nat(n as int));
        }
    } else {
        write_nat(n / 10, out);
        out.push(digit_of(n % 10));
        proof {
            assert(final(out)@ =~= old(out)@ + ser_nat(n as int));
        }
    }
}

/// Appends the canonical decimal form of `i` to `out`.
pub fn write_int(i: i64, out: &mut String)
    ensures
        final(out)@ == old(out)@ + ser_int(i as int),
{
    if i >= 0 {
        write_nat(i as u64, out);
    } else {
        out.push('-');
        let m: u64 = if i == i64::MIN { 9223372036854775808u64 } else { (-i) as u64 };
        proof {
            assert(m as int == -(i as int));
        }
        write_nat(m, out);
        proof {
            assert(final(out)@ =~= old(out)@ + ser_int(i as int));
        }
    }
}

/// Appends the canonical JSON string literal for `s` to `out`.
#[verifier::loop_isolation(false)]
pub fn write_text(s: &str, out: &mut String)
    ensures
        final(out)@ == old(out)@ + ser_text(s@),
{
    out.push('"');
    let n: usize = s.unicode_len();
    let mut i: usize = 0;
    while i < n
        invariant
            0 <= i <= n,
            out@ == old(out)@ + seq!['"'] + ser_str_body(s@.take(i as int)),
        decreases n - i,
    {
        let c = s.get_char(i);
        let u: u32 = c as u32;
        if c == '"' {
            out.push('\\');
            out.push('"');
        } else if c == '\\' {
            out.push('\\');
            out.push('\\');
        } else if u == 0x08 {
            out.push('\\');
            out.push('b');
        } else if u == 0x09 {
            out.push('\\');
            out.push('t');
        } else if u == 0x0A {
            out.push('\\');
            out.push('n');
        } else if u == 0x0C {
            out.push('\\');
            out.push('f');
        } else if u == 0x0D {
            out.push('\\');
            out.push('r');
        } else if u < 0x20 {
            out.push('\\');
            out.push('u');
            out.push('0');
            out.push('0');
            out.push(hex_of(u / 16));
            out.push(hex_of(u % 16));
        } else {
            out.push(c);
        }
        proof {
            lemma_ser_str_body_snoc(s@.take(i as int), s@[i as int]);
            assert(s@.take(i as int + 1) =~= s@.take(i as int).push(s@[i as int]));
            assert(out@ =~= old(out)@ + seq!['"'] + ser_str_body(s@.take(i as int + 1)));
        }
        i += 1;
    }
    out.push('"');
    proof {
        assert(s@.take(n as int) =~= s@);
        assert(final(out)@ =~= old(out)@ + ser_text(s@));
    }
}

/// Appends the canonical text of `v` to `out`.
#[verifier::loop_isolation(false)]
#[verifier::rlimit(60)]
pub fn write_value(v: &JsonValue, out: &mut String)
    ensures
        final(out)@ == old(out)@ + ser_value(v@),
    decreases *v,
{
    match v {
        JsonValue::Null => {
            out.append("null");
        },
        JsonValue::Bool(b) => {
            if *b {
                out.append("true");
            } else {
                out.append("false");
            }
        },
        JsonValue::Int(i) => {
            write_int(*i, out);
        },
        JsonValue::Text(s) => {
            write_text(s.as_str(), out);
        },
        JsonValue::Arr(es) => {
            let ghost models = json_models_of(es@);
            proof {
                lemma_json_models_of_len(es@);
            }
            out.push('[');
            let mut i: usize = 0;
            while i < es.len()
                invariant
                    0 <= i <= es@.len(),
                    out@ == old(out)@ + seq!['['] + ser_elems(models.take(i as int)),
                decreases es@.len() - i,
            {
                if i > 0 {
                    out.push(',');
                }
                proof {
                    assert(decreases_to!(*v => *es));
                    assert(decreases_to!(*es => es@[i as int]));
                }
                write_value(&es[i], out);
                proof {
                    lemma_json_models_of_index(es@, i as int);
                    lemma_ser_elems_snoc(models.take(i as int), models[i as int]);
                    assert(models.take(i as int + 1) =~= models.take(i as int).push(
                        models[i as int],
                    ));
                    assert(out@ =~= old(out)@ + seq!['['] + ser_elems(models.take(i as int + 1)));
                }
                i += 1;
            }
            out.push(']');
            proof {
                assert(models.take(es@.len() as int) =~= models);
                assert(final(out)@ =~= old(out)@ + ser_value(v@));
            }
        },
        JsonValue::Obj(ms) => {
            let ghost models = json_member_models_of(ms@);
            proof {
                lemma_json_member_models_of_len(ms@);
            }
            out.push('{');
            let mut i: usize = 0;
            while i < ms.len()
                invariant
                    0 <= i <= ms@.len(),
                    out@ == old(out)@ + seq!['{'] + ser_members(models.take(i as int)),
                decreases ms@.len() - i,
            {
                if i > 0 {
                    out.push(',');
                }
                write_text(ms[i].0.as_str(), out);
                out.push(':');
                proof {
                    assert(decreases_to!(*v => *ms));
                    assert(decreases_to!(*ms => ms@[i as int]));
                    assert(decreases_to!(ms@[i as int] => ms@[i as int].1));
                }
                write_value(&ms[i].1, out);
                proof {
                    lemma_json_member_models_of_index(ms@, i as int);
                    lemma_ser_members_snoc(models.take(i as int), models[i as int]);
                    assert(models.take(i as int + 1) =~= models.take(i as int).push(
                        models[i as int],
                    ));
                    assert(out@ =~= old(out)@ + seq!['{'] + ser_members(models.take(i as int + 1)));
                }
                i += 1;
            }
            out.push('}');
            proof {
                assert(models.take(ms@.len() as int) =~= models);
                assert(final(out)@ =~= old(out)@ + ser_value(v@));
            }
        },
    }
}

pub broadcast proof fn lemma_json_member_models_of_len(s: Seq<(String, JsonValue)>)
    ensures
        (#[trigger] json_member_models_of(s)).len() == s.len(),
    decreases s,
{
    if s.len() > 0 {
        lemma_json_member_models_of_len(s.drop_first());
    }
}

pub broadcast proof fn lemma_json_member_models_of_index(s: Seq<(String, JsonValue)>, i: int)
    requires
        0 <= i < s.len(),
    ensures
        #[trigger] json_member_models_of(s)[i] == (s[i].0@, json_model_of(s[i].1)),
    decreases s,
{
    lemma_json_member_models_of_len(s);
    if i > 0 {
        lemma_json_member_models_of_index(s.drop_first(), i - 1);
    }
}


/// Fresh member list for building a JSON object.
pub fn obj_new() -> (r: Vec<(String, JsonValue)>)
    ensures
        json_member_models_of(r@) == Seq::<(Seq<char>, JsonModel)>::empty(),
        r@.len() == 0,
{
    Vec::new()
}

/// Appends one member to a JSON object under construction.
pub fn obj_add(ms: &mut Vec<(String, JsonValue)>, k: &str, v: JsonValue)
    ensures
        json_member_models_of(final(ms)@) == json_member_models_of(old(ms)@).push(
            (k@, json_model_of(v)),
        ),
{
    let ghost prev = ms@;
    let ghost model = json_model_of(v);
    ms.push((String::from_str(k), v));
    proof {
        lemma_json_member_models_of_snoc(prev, (final(ms)@.last().0, final(ms)@.last().1));
        assert(final(ms)@ =~= prev.push(final(ms)@.last()));
    }
}

/// Fresh element list for building a JSON array.
pub fn arr_new() -> (r: Vec<JsonValue>)
    ensures
        json_models_of(r@) == Seq::<JsonModel>::empty(),
        r@.len() == 0,
{
    Vec::new()
}

/// Appends one element to a JSON array under construction.
pub fn arr_add(es: &mut Vec<JsonValue>, v: JsonValue)
    ensures
        json_models_of(final(es)@) == json_models_of(old(es)@).push(json_model_of(v)),
{
    let ghost prev = es@;
    es.push(v);
    proof {
        lemma_json_models_of_snoc(prev, final(es)@.last());
        assert(final(es)@ =~= prev.push(final(es)@.last()));
    }
}


/// Decimal digit test for parsing.
pub open spec fn is_digit(c: char) -> bool {
    0x30 <= c as int && c as int <= 0x39
}

/// Numeric value of a decimal digit character.
pub open spec fn digit_val(c: char) -> int {
    c as int - 0x30
}

/// Lower-case hexadecimal digit test.
pub open spec fn is_hex(c: char) -> bool {
    is_digit(c) || (0x61 <= c as int && c as int <= 0x66)
}

/// Numeric value of a lower-case hexadecimal digit character.
pub open spec fn hex_val(c: char) -> int {
    if is_digit(c) { digit_val(c) } else { c as int - 0x61 + 10 }
}

/// The control character with the given code point, for codes below `0x20`.
pub open spec fn control_char_of(code: int) -> char {
    if code == 0x00 { '\u{00}' } else if code == 0x01 { '\u{01}' }
    else if code == 0x02 { '\u{02}' } else if code == 0x03 { '\u{03}' }
    else if code == 0x04 { '\u{04}' } else if code == 0x05 { '\u{05}' }
    else if code == 0x06 { '\u{06}' } else if code == 0x07 { '\u{07}' }
    else if code == 0x08 { '\u{08}' } else if code == 0x09 { '\u{09}' }
    else if code == 0x0A { '\u{0A}' } else if code == 0x0B { '\u{0B}' }
    else if code == 0x0C { '\u{0C}' } else if code == 0x0D { '\u{0D}' }
    else if code == 0x0E { '\u{0E}' } else if code == 0x0F { '\u{0F}' }
    else if code == 0x10 { '\u{10}' } else if code == 0x11 { '\u{11}' }
    else if code == 0x12 { '\u{12}' } else if code == 0x13 { '\u{13}' }
    else if code == 0x14 { '\u{14}' } else if code == 0x15 { '\u{15}' }
    else if code == 0x16 { '\u{16}' } else if code == 0x17 { '\u{17}' }
    else if code == 0x18 { '\u{18}' } else if code == 0x19 { '\u{19}' }
    else if code == 0x1A { '\u{1A}' } else if code == 0x1B { '\u{1B}' }
    else if code == 0x1C { '\u{1C}' } else if code == 0x1D { '\u{1D}' }
    else if code == 0x1E { '\u{1E}' } else { '\u{1F}' }
}

/// The character a short escape stands for, if the escape is recognized.
pub open spec fn simple_escape(e: char) -> Option<char> {
    if e == '"' { Some('"') }
    else if e == '\\' { Some('\\') }
    else if e == '/' { Some('/') }
    else if e == 'b' { Some('\u{08}') }
    else if e == 'f' { Some('\u{0C}') }
    else if e == 'n' { Some('\u{0A}') }
    else if e == 'r' { Some('\u{0D}') }
    else if e == 't' { Some('\u{09}') }
    else { None }
}

/// Parses the body of a JSON string literal starting just after the opening
/// quote; yields the decoded text and the position after the closing quote.
pub open spec fn parse_str_body(s: Seq<char>, i: int) -> Option<(Seq<char>, int)>
    decreases s.len() - i,
{
    if i < 0 || i >= s.len() {
        None
    } else if s[i] == '"' {
        Some((Seq::empty(), i + 1))
    } else if s[i] == '\\' {
        if i + 1 >= s.len() {
            None
        } else if s[i + 1] == 'u' {
            if i + 5 >= s.len() {
                None
            } else if s[i + 2] == '0' && s[i + 3] == '0' && is_hex(s[i + 4]) && is_hex(s[i + 5])
                && hex_val(s[i + 4]) * 16 + hex_val(s[i + 5]) < 0x20 {
                match parse_str_body(s, i + 6) {
                    Some((rest, j)) => Some(
                        (seq![control_char_of(hex_val(s[i + 4]) * 16 + hex_val(s[i + 5]))] + rest, j),
                    ),
                    None => None,
                }
            } else {
                None
            }
        } else {
            match simple_escape(s[i + 1]) {
                Some(c) => match parse_str_body(s, i + 2) {
                    Some((rest, j)) => Some((seq![c] + rest, j)),
                    None => None,
                },
                None => None,
            }
        }
    } else if (s[i] as int) >= 0x20 {
        match parse_str_body(s, i + 1) {
            Some((rest, j)) => Some((seq![s[i]] + rest, j)),
            None => None,
        }
    } else {
        None
    }
}

/// First position at or after `i` that does not hold a decimal digit.
pub open spec fn digits_end(s: Seq<char>, i: int) -> int
    decreases s.len() - i,
{
    if 0 <= i < s.len() && is_digit(s[i]) {
        digits_end(s, i + 1)
    } else {
        i
    }
}

/// Value of the digit run `s[i .. j]`.
pub open spec fn digits_val(s: Seq<char>, i: int, j: int) -> int
    decreases j - i,
{
    if i < j {
        digits_val(s, i, j - 1) * 10 + digit_val(s[j - 1])
    } else {
        0
    }
}

/// Parses an integer: optional minus sign, then digits without a leading
/// zero, within the signed 64-bit range.
pub open spec fn parse_number(s: Seq<char>, i: int) -> Option<(JsonModel, int)> {
    if i < 0 || i >= s.len() {
        None
    } else {
        let d0 = if s[i] == '-' { i + 1 } else { i };
        if d0 >= s.len() || !is_digit(s[d0]) {
            None
        } else {
            let e = digits_end(s, d0);
            if s[d0] == '0' && e > d0 + 1 {
                None
            } else {
                let n = digits_val(s, d0, e);
                let v = if s[i] == '-' { -n } else { n };
                if v < -0x8000000000000000 || v > 0x7fffffffffffffff {
                    None
                } else {
                    Some((JsonModel::Int(v), e))
                }
            }
        }
    }
}

/// Parses one JSON value at position `i` of the strict canonical grammar:
/// no white space between tokens, integers only, canonical string escapes.
pub open spec fn parse_value(s: Seq<char>, i: int) -> Option<(JsonModel, int)>
    decreases s.len() - i, 0int,
{
    if i < 0 || i >= s.len() {
        None
    } else if s[i] == 'n' {
        if i + 4 <= s.len() && s.subrange(i, i + 4) == "null"@ {
            Some((JsonModel::Null, i + 4))
        } else {
            None
        }
    } else if s[i] == 't' {
        if i + 4 <= s.len() && s.subrange(i, i + 4) == "true"@ {
            Some((JsonModel::Bool(true), i + 4))
        } else {
            None
        }
    } else if s[i] == 'f' {
        if i + 5 <= s.len() && s.subrange(i, i + 5) == "false"@ {
            Some((JsonModel::Bool(false), i + 5))
        } else {
            None
        }
    } else if s[i] == '"' {
        match parse_str_body(s, i + 1) {
            Some((txt, j)) => Some((JsonModel::Text(txt), j)),
            None => None,
        }
    } else if s[i] == '[' {
        if i + 1 < s.len() && s[i + 1] == ']' {
            Some((JsonModel::Arr(Seq::empty()), i + 2))
        } else {
            match parse_elems(s, i + 1) {
                Some((es, j)) => Some((JsonModel::Arr(es), j)),
                None => None,
            }
        }
    } else if s[i] == '{' {
        if i + 1 < s.len() && s[i + 1] == '}' {
            Some((JsonModel::Obj(Seq::empty()), i + 2))
        } else {
            match parse_members(s, i + 1) {
                Some((ms, j)) => Some((JsonModel::Obj(ms), j)),
                None => None,
            }
        }
    } else {
        parse_number(s, i)
    }
}

/// Parses a non-empty `value (',' value)* ']'` tail of an array.
pub open spec fn parse_elems(s: Seq<char>, i: int) -> Option<(Seq<JsonModel>, int)>
    decreases s.len() - i, 1int,
{
    if i < 0 || i >= s.len() {
        None
    } else {
        match parse_value(s, i) {
            None => None,
            Some((v, j)) => if !(i < j && j < s.len()) {
                None
            } else if s[j] == ',' {
                match parse_elems(s, j + 1) {
                    Some((rest, k)) => Some((seq![v] + rest, k)),
                    None => None,
                }
            } else if s[j] == ']' {
                Some((seq![v], j + 1))
            } else {
                None
            },
        }
    }
}

/// Parses a non-empty `"key":value (',' "key":value)* '}'` tail of an object.
pub open spec fn parse_members(s: Seq<char>, i: int) -> Option<(Seq<(Seq<char>, JsonModel)>, int)>
    decreases s.len() - i, 1int,
{
    if i < 0 || i >= s.len() || s[i] != '"' {
        None
    } else {
        match parse_str_body(s, i + 1) {
            None => None,
            Some((key, j)) => if !(i < j && j < s.len() && s[j] == ':') {
                None
            } else {
                match parse_value(s, j + 1) {
                    None => None,
                    Some((v, k)) => if !(j < k && k < s.len()) {
                        None
                    } else if s[k] == ',' {
                        match parse_members(s, k + 1) {
                            Some((rest, l)) => Some((seq![(key, v)] + rest, l)),
                            None => None,
                        }
                    } else if s[k] == '}' {
                        Some((seq![(key, v)], k + 1))
                    } else {
                        None
                    },
                }
            },
        }
    }
}

/// Parses a complete text as one JSON value with nothing left over.
pub open spec fn parse_json_text(s: Seq<char>) -> Option<JsonModel> {
    match parse_value(s, 0) {
        Some((v, j)) => if j == s.len() {
            Some(v)
        } else {
            None
        },
        None => None,
    }
}


/// Powers of ten.
pub open spec fn pow10(k: int) -> int
    decreases k,
{
    if k <= 0 { 1 } else { 10 * pow10(k - 1) }
}

pub proof fn lemma_digits_val_upper(s: Seq<char>, i: int, j: int)
    requires
        0 <= i <= j <= s.len(),
        forall|k: int| i <= k < j ==> is_digit(#[trigger] s[k]),
    ensures
        0 <= digits_val(s, i, j) < pow10(j - i),
    decreases j - i,
{
    if i < j {
        lemma_digits_val_upper(s, i, j - 1);
        assert(digit_val(s[j - 1]) <= 9);
        assert(digits_val(s, i, j - 1) * 10 + digit_val(s[j - 1]) < pow10(j - i)) by (nonlinear_arith)
            requires
                digits_val(s, i, j - 1) < pow10(j - i - 1),
                0 <= digits_val(s, i, j - 1),
                digit_val(s[j - 1]) <= 9,
                pow10(j - i) == 10 * pow10(j - i - 1),
        ;
    }
}

pub proof fn lemma_digits_val_lower(s: Seq<char>, i: int, j: int)
    requires
        0 <= i < j <= s.len(),
        forall|k: int| i <= k < j ==> is_digit(#[trigger] s[k]),
        s[i] != '0',
    ensures
        digits_val(s, i, j) >= pow10(j - i - 1),
    decreases j - i,
{
    if j - 1 == i {
        assert(is_digit(s[i]));
        assert('0' as int == 0x30);
        assert(digit_val(s[i]) >= 1);
    } else {
        lemma_digits_val_lower(s, i, j - 1);
        assert(digits_val(s, i, j - 1) * 10 + digit_val(s[j - 1]) >= pow10(j - i - 1)) by (nonlinear_arith)
            requires
                digits_val(s, i, j - 1) >= pow10(j - i - 2),
                digit_val(s[j - 1]) >= 0,
                pow10(j - i - 1) == 10 * pow10(j - i - 2),
        ;
    }
}

pub proof fn lemma_digits_end_bounds(s: Seq<char>, i: int)
    requires
        0 <= i <= s.len(),
    ensures
        i <= digits_end(s, i) <= s.len(),
        forall|k: int| i <= k < digits_end(s, i) ==> is_digit(#[trigger] s[k]),
        digits_end(s, i) == s.len() || !is_digit(s[digits_end(s, i)]),
    decreases s.len() - i,
{
    if i < s.len() && is_digit(s[i]) {
        lemma_digits_end_bounds(s, i + 1);
    }
}

/// True when position `e` still holds a decimal digit of `s`.
fn more_digits(s: &Vec<char>, e: usize) -> (r: bool)
    ensures
        r == (e < s@.len() && is_digit(s@[e as int])),
{
    if e < s.len() {
        let c = s[e];
        '0' <= c && c <= '9'
    } else {
        false
    }
}

/// Executable integer parse matching `parse_number` exactly.
#[verifier::loop_isolation(false)]
#[verifier::rlimit(60)]
fn parse_number_x(s: &Vec<char>, i: usize) -> (r: Option<(i64, usize)>)
    requires
        i <= s@.len(),
    ensures
        match r {
            Some((v, j)) => parse_number(s@, i as int) == Some((JsonModel::Int(v as int), j as int))
                && i < j <= s@.len(),
            None => parse_number(s@, i as int) is None,
        },
{
    if i >= s.len() {
        return None;
    }
    let neg = s[i] == '-';
    let d0: usize = if neg { i + 1 } else { i };
    if !more_digits(s, d0) {
        return None;
    }
    let mut e: usize = d0;
    while more_digits(s, e)
        invariant
            d0 <= e <= s@.len(),
            digits_end(s@, d0 as int) == digits_end(s@, e as int),
        decreases s@.len() - e,
    {
        e += 1;
    }
    proof {
        assert(digits_end(s@, d0 as int) == e as int);
        lemma_digits_end_bounds(s@, d0 as int);
    }
    if s[d0] == '0' && e > d0 + 1 {
        return None;
    }
    if e - d0 > 19 {
        proof {
            lemma_digits_val_lower(s@, d0 as int, e as int);
            reveal_with_fuel(pow10, 21);
            assert(pow10(19) == 10000000000000000000);
            assert(e as int - d0 as int - 1 >= 19);
            lemma_pow10_mono(19, e as int - d0 as int - 1);
        }
        return None;
    }
    let mut acc: u64 = 0;
    let mut k: usize = d0;
    proof {
        reveal_with_fuel(pow10, 21);
        assert(pow10(19) == 10000000000000000000);
    }
    while k < e
        invariant
            d0 <= k <= e,
            acc as int == digits_val(s@, d0 as int, k as int),
            (acc as int) < pow10(k as int - d0 as int),
        decreases e - k,
    {
        let c = s[k];
        let d: u64 = (c as u32 as u64) - 0x30;
        proof {
            lemma_digits_val_upper(s@, d0 as int, k as int);
            lemma_pow10_mono(k as int - d0 as int, 18);
            reveal_with_fuel(pow10, 21);
            assert(pow10(18) == 1000000000000000000);
            assert(acc as int * 10 + d < pow10(k as int - d0 as int + 1)) by (nonlinear_arith)
                requires
                    (acc as int) < pow10(k as int - d0 as int),
                    0 <= acc,
                    d <= 9,
                    pow10(k as int - d0 as int + 1) == 10 * pow10(k as int - d0 as int),
            ;
        }
        acc = acc * 10 + d;
        k += 1;
    }
    if neg {
        if acc > 9223372036854775808u64 {
            return None;
        }
        let v: i64 = if acc == 9223372036854775808u64 {
            i64::MIN
        } else {
            -(acc as i64)
        };
        Some((v, e))
    } else {
        if acc > 9223372036854775807u64 {
            return None;
        }
        Some((acc as i64, e))
    }
}

pub proof fn lemma_pow10_mono(a: int, b: int)
    requires
        a <= b,
    ensures
        pow10(a) <= pow10(b),
    decreases b - a,
{
    if a < b {
        if b <= 0 {
        } else {
            lemma_pow10_mono(a, b - 1);
            lemma_pow10_pos(b - 1);
            assert(pow10(b) == 10 * pow10(b - 1));
        }
    }
}

pub proof fn lemma_pow10_pos(k: int)
    ensures
        pow10(k) >= 1,
    decreases (if k > 0 { k } else { 0 }),
{
    if k > 0 {
        lemma_pow10_pos(k - 1);
    }
}



/// True when the characters of `pat` occur in `s` exactly at position `i`.
#[verifier::loop_isolation(false)]
fn match_lit(s: &Vec<char>, i: usize, pat: &str) -> (r: bool)
    requires
        i <= s@.len(),
    ensures
        r == (i + pat@.len() <= s@.len() && s@.subrange(i as int, i as int + pat@.len()) == pat@),
{
    let m: usize = pat.unicode_len();
    if m > s.len() - i {
        return false;
    }
    let mut k: usize = 0;
    while k < m
        invariant
            i + m <= s@.len(),
            m == pat@.len(),
            0 <= k <= m,
            forall|t: int| 0 <= t < k ==> s@[i + t] == pat@[t],
        decreases m - k,
    {
        if s[i + k] != pat.get_char(k) {
            proof {
                assert(s@.subrange(i as int, i as int + pat@.len())[k as int] != pat@[k as int]);
            }
            return false;
        }
        k += 1;
    }
    proof {
        assert(s@.subrange(i as int, i as int + pat@.len()) =~= pat@);
    }
    true
}

/// Executable lower-case hexadecimal digit test.
fn is_hex_x(c: char) -> (r: bool)
    ensures
        r == is_hex(c),
{
    ('0' <= c && c <= '9') || ('a' <= c && c <= 'f')
}

/// Executable value of a lower-case hexadecimal digit.
fn hex_val_x(c: char) -> (r: u32)
    requires
        is_hex(c),
    ensures
        r as int == hex_val(c),
{
    if c <= '9' {
        c as u32 - 0x30
    } else {
        c as u32 - 0x61 + 10
    }
}

/// Executable control character for a code below `0x20`.
fn control_of_x(code: u32) -> (c: char)
    requires
        code < 0x20,
    ensures
        c == control_char_of(code as int),
{
    if code == 0x00 { '\u{00}' } else if code == 0x01 { '\u{01}' }
    else if code == 0x02 { '\u{02}' } else if code == 0x03 { '\u{03}' }
    else if code == 0x04 { '\u{04}' } else if code == 0x05 { '\u{05}' }
    else if code == 0x06 { '\u{06}' } else if code == 0x07 { '\u{07}' }
    else if code == 0x08 { '\u{08}' } else if code == 0x09 { '\u{09}' }
    else if code == 0x0A { '\u{0A}' } else if code == 0x0B { '\u{0B}' }
    else if code == 0x0C { '\u{0C}' } else if code == 0x0D { '\u{0D}' }
    else if code == 0x0E { '\u{0E}' } else if code == 0x0F { '\u{0F}' }
    else if code == 0x10 { '\u{10}' } else if code == 0x11 { '\u{11}' }
    else if code == 0x12 { '\u{12}' } else if code == 0x13 { '\u{13}' }
    else if code == 0x14 { '\u{14}' } else if code == 0x15 { '\u{15}' }
    else if code == 0x16 { '\u{16}' } else if code == 0x17 { '\u{17}' }
    else if code == 0x18 { '\u{18}' } else if code == 0x19 { '\u{19}' }
    else if code == 0x1A { '\u{1A}' } else if code == 0x1B { '\u{1B}' }
    else if code == 0x1C { '\u{1C}' } else if code == 0x1D { '\u{1D}' }
    else if code == 0x1E { '\u{1E}' } else { '\u{1F}' }
}

/// Executable short-escape decoder.
fn simple_escape_x(e: char) -> (r: Option<char>)
    ensures
        r == simple_escape(e),
{
    if e == '"' { Some('"') }
    else if e == '\\' { Some('\\') }
    else if e == '/' { Some('/') }
    else if e == 'b' { Some('\u{08}') }
    else if e == 'f' { Some('\u{0C}') }
    else if e == 'n' { Some('\u{0A}') }
    else if e == 'r' { Some('\u{0D}') }
    else if e == 't' { Some('\u{09}') }
    else { None }
}

/// Executable string-body parse matching `parse_str_body`: decoded characters
/// are appended to `out` in order.
fn parse_str_body_x(s: &Vec<char>, i: usize, out: &mut String) -> (r: Option<usize>)
    requires
        i <= s@.len(),
    ensures
        match parse_str_body(s@, i as int) {
            Some((txt, jj)) => r matches Some(j) && j as int == jj && final(out)@ == old(out)@
                + txt && i < j <= s@.len(),
            None => r is None,
        },
    decreases s@.len() - i,
{
    if i >= s.len() {
        return None;
    }
    let c = s[i];
    if c == '"' {
        proof {
            assert(final(out)@ =~= old(out)@ + Seq::<char>::empty());
        }
        return Some(i + 1);
    }
    if c == '\\' {
        if i + 1 >= s.len() {
            return None;
        }
        let e = s[i + 1];
        if e == 'u' {
            if s.len() - i <= 5 {
                return None;
            }
            let c4 = s[i + 4];
            let c5 = s[i + 5];
            if s[i + 2] == '0' && s[i + 3] == '0' && is_hex_x(c4) && is_hex_x(c5) {
                let code: u32 = hex_val_x(c4) * 16 + hex_val_x(c5);
                if code < 0x20 {
                    out.push(control_of_x(code));
                    let rest = parse_str_body_x(s, i + 6, out);
                    match rest {
                        Some(j) => {
                            proof {
                                assert(final(out)@ =~= old(out)@ + (seq![
                                    control_char_of(code as int),
                                ] + parse_str_body(s@, i as int + 6)->Some_0.0));
                            }
                            Some(j)
                        },
                        None => None,
                    }
                } else {
                    None
                }
            } else {
                None
            }
        } else {
            match simple_escape_x(e) {
                Some(d) => {
                    out.push(d);
                    let rest = parse_str_body_x(s, i + 2, out);
                    match rest {
                        Some(j) => {
                            proof {
                                assert(final(out)@ =~= old(out)@ + (seq![d] + parse_str_body(
                                    s@,
                                    i as int + 2,
                                )->Some_0.0));
                            }
                            Some(j)
                        },
                        None => None,
                    }
                },
                None => None,
            }
        }
    } else if c >= ' ' {
        out.push(c);
        let rest = parse_str_body_x(s, i + 1, out);
        match rest {
            Some(j) => {
                proof {
                    assert(final(out)@ =~= old(out)@ + (seq![c] + parse_str_body(
                        s@,
                        i as int + 1,
                    )->Some_0.0));
                }
                Some(j)
            },
            None => None,
        }
    } else {
        None
    }
}

/// Executable value parse matching `parse_value` on the canonical grammar.
fn parse_value_x(s: &Vec<char>, i: usize) -> (r: Option<(JsonValue, usize)>)
    requires
        i <= s@.len(),
    ensures
        match parse_value(s@, i as int) {
            Some((jm, jj)) => r matches Some(p) && p.0@ == jm && p.1 as int == jj && i < p.1
                <= s@.len(),
            None => r is None,
        },
    decreases s@.len() - i, 0int,
{
    if i >= s.len() {
        return None;
    }
    let c = s[i];
    if c == 'n' {
        if match_lit(s, i, "null") {
            proof {
                reveal_strlit("null");
            }
            Some((JsonValue::Null, i + 4))
        } else {
            None
        }
    } else if c == 't' {
        if match_lit(s, i, "true") {
            proof {
                reveal_strlit("true");
            }
            Some((JsonValue::Bool(true), i + 4))
        } else {
            None
        }
    } else if c == 'f' {
        if match_lit(s, i, "false") {
            proof {
                reveal_strlit("false");
            }
            Some((JsonValue::Bool(false), i + 5))
        } else {
            None
        }
    } else if c == '"' {
        let mut txt = String::new();
        match parse_str_body_x(s, i + 1, &mut txt) {
            Some(j) => Some((JsonValue::Text(txt), j)),
            None => None,
        }
    } else if c == '[' {
        if i + 1 < s.len() && s[i + 1] == ']' {
            let empty: Vec<JsonValue> = Vec::new();
            proof {
                assert(json_models_of(empty@) =~= Seq::<JsonModel>::empty());
            }
            Some((JsonValue::Arr(empty), i + 2))
        } else {
            let mut elems: Vec<JsonValue> = Vec::new();
            let ghost before = elems@;
            match parse_elems_x(s, i + 1, &mut elems) {
                Some(j) => {
                    proof {
                        assert(json_models_of(elems@) =~= parse_elems(
                            s@,
                            i as int + 1,
                        )->Some_0.0);
                    }
                    Some((JsonValue::Arr(elems), j))
                },
                None => None,
            }
        }
    } else if c == '{' {
        if i + 1 < s.len() && s[i + 1] == '}' {
            let empty: Vec<(String, JsonValue)> = Vec::new();
            proof {
                assert(json_member_models_of(empty@) =~= Seq::<(Seq<char>, JsonModel)>::empty());
            }
            Some((JsonValue::Obj(empty), i + 2))
        } else {
            let mut members: Vec<(String, JsonValue)> = Vec::new();
            match parse_members_x(s, i + 1, &mut members) {
                Some(j) => {
                    proof {
                        assert(json_member_models_of(members@) =~= parse_members(
                            s@,
                            i as int + 1,
                        )->Some_0.0);
                    }
                    Some((JsonValue::Obj(members), j))
                },
                None => None,
            }
        }
    } else {
        match parse_number_x(s, i) {
            Some((v, j)) => Some((JsonValue::Int(v), j)),
            None => None,
        }
    }
}

/// Executable array-tail parse matching `parse_elems`: parsed elements are
/// appended to `acc` in order.
fn parse_elems_x(s: &Vec<char>, i: usize, acc: &mut Vec<JsonValue>) -> (r: Option<usize>)
    requires
        i <= s@.len(),
    ensures
        match parse_elems(s@, i as int) {
            Some((es, jj)) => r matches Some(j) && j as int == jj && json_models_of(final(acc)@)
                == json_models_of(old(acc)@) + es && i < j <= s@.len(),
            None => r is None,
        },
    decreases s@.len() - i, 1int,
{
    match parse_value_x(s, i) {
        None => None,
        Some((v, j)) => {
            if j >= s.len() {
                return None;
            }
            let cj = s[j];
            let ghost prev = acc@;
            acc.push(v);
            proof {
                lemma_json_models_of_snoc(prev, v);
            }
            if cj == ',' {
                match parse_elems_x(s, j + 1, acc) {
                    Some(k) => {
                        proof {
                            assert(json_models_of(final(acc)@) =~= json_models_of(old(acc)@) + (
                            seq![v@] + parse_elems(s@, j as int + 1)->Some_0.0));
                        }
                        Some(k)
                    },
                    None => None,
                }
            } else if cj == ']' {
                proof {
                    assert(json_models_of(final(acc)@) =~= json_models_of(old(acc)@) + seq![v@]);
                }
                Some(j + 1)
            } else {
                None
            }
        },
    }
}

/// Executable object-tail parse matching `parse_members`: parsed members are
/// appended to `acc` in order.
fn parse_members_x(s: &Vec<char>, i: usize, acc: &mut Vec<(String, JsonValue)>) -> (r: Option<
    usize,
>)
    requires
        i <= s@.len(),
    ensures
        match parse_members(s@, i as int) {
            Some((ms, jj)) => r matches Some(j) && j as int == jj && json_member_models_of(
                final(acc)@,
            ) == json_member_models_of(old(acc)@) + ms && i < j <= s@.len(),
            None => r is None,
        },
    decreases s@.len() - i, 1int,
{
    if i >= s.len() {
        return None;
    }
    if s[i] != '"' {
        return None;
    }
    let mut key = String::new();
    match parse_str_body_x(s, i + 1, &mut key) {
        None => None,
        Some(j) => {
            if j >= s.len() {
                return None;
            }
            if s[j] != ':' {
                return None;
            }
            match parse_value_x(s, j + 1) {
                None => None,
                Some((v, k)) => {
                    if k >= s.len() {
                        return None;
                    }
                    let ck = s[k];
                    let ghost prev = acc@;
                    let ghost keyview = key@;
                    acc.push((key, v));
                    proof {
                        lemma_json_member_models_of_snoc(prev, acc@.last());
                        assert(acc@ =~= prev.push(acc@.last()));
                        assert(acc@.last().0@ == keyview);
                    }
                    if ck == ',' {
                        match parse_members_x(s, k + 1, acc) {
                            Some(l) => {
                                proof {
                                    assert(json_member_models_of(final(acc)@)
                                        =~= json_member_models_of(old(acc)@) + (seq![
                                        (keyview, v@),
                                    ] + parse_members(s@, k as int + 1)->Some_0.0));
                                }
                                Some(l)
                            },
                            None => None,
                        }
                    } else if ck == '}' {
                        proof {
                            assert(json_member_models_of(final(acc)@) =~= json_member_models_of(
                                old(acc)@,
                            ) + seq![(keyview, v@)]);
                        }
                        Some(k + 1)
                    } else {
                        None
                    }
                },
            }
        },
    }
}

/// Characters of a text, in order.
pub fn to_chars(s: &str) -> (r: Vec<char>)
    ensures
        r@ == s@,
{
    let n: usize = s.unicode_len();
    let mut out: Vec<char> = Vec::new();
    let mut i: usize = 0;
    while i < n
        invariant
            n == s@.len(),
            0 <= i <= n,
            out@ == s@.take(i as int),
        decreases n - i,
    {
        out.push(s.get_char(i));
        proof {
            assert(out@ =~= s@.take(i as int + 1));
        }
        i += 1;
    }
    proof {
        assert(out@ =~= s@);
    }
    out
}

/// Parses a complete text as one canonical JSON value, exactly
/// `parse_json_text` of the text's characters.
pub fn parse_json(text: &str) -> (r: Option<JsonValue>)
    ensures
        match parse_json_text(text@) {
            Some(jm) => r matches Some(v) && v@ == jm,
            None => r is None,
        },
{
    let chars = to_chars(text);
    match parse_value_x(&chars, 0) {
        Some((v, j)) => {
            if j == chars.len() {
                Some(v)
            } else {
                None
            }
        },
        None => None,
    }
}


/// Character sequences whose code points are non-negative, as those of any
/// actual text are.
pub open spec fn text_in_range(s: Seq<char>) -> bool {
    forall|k: int| 0 <= k < s.len() ==> 0 <= (#[trigger] s[k]) as int
}

/// Values the executable value type can hold: integers within the signed
/// 64-bit range and texts made of actual characters.
pub open spec fn model_in_range(j: JsonModel) -> bool
    decreases j,
{
    match j {
        JsonModel::Int(i) => -0x8000000000000000 <= i <= 0x7fffffffffffffff,
        JsonModel::Text(s) => text_in_range(s),
        JsonModel::Arr(es) => models_in_range(es),
        JsonModel::Obj(ms) => member_models_in_range(ms),
        _ => true,
    }
}

pub open spec fn models_in_range(s: Seq<JsonModel>) -> bool
    decreases s,
{
    if s.len() == 0 {
        true
    } else {
        model_in_range(s[0]) && models_in_range(s.drop_first())
    }
}

pub open spec fn member_models_in_range(s: Seq<(Seq<char>, JsonModel)>) -> bool
    decreases s,
{
    if s.len() == 0 {
        true
    } else {
        text_in_range(s[0].0) && model_in_range(s[0].1) && member_models_in_range(s.drop_first())
    }
}

pub proof fn lemma_digit_char_val(d: int)
    requires
        0 <= d < 10,
    ensures
        is_digit(digit_char(d)),
        digit_val(digit_char(d)) == d,
        d >= 1 ==> digit_char(d) != '0',
{
}

pub proof fn lemma_hex_char_val(d: int)
    requires
        0 <= d < 16,
    ensures
        is_hex(hex_char(d)),
        hex_val(hex_char(d)) == d,
{
}

pub proof fn lemma_ser_nat_shape(n: int)
    requires
        n >= 0,
    ensures
        ser_nat(n).len() >= 1,
        forall|k: int| 0 <= k < ser_nat(n).len() ==> is_digit(#[trigger] ser_nat(n)[k]),
        n >= 1 ==> ser_nat(n)[0] != '0',
        n == 0 ==> ser_nat(n) == seq!['0'],
    decreases n,
{
    if n < 10 {
        lemma_digit_char_val(n);
    } else {
        lemma_ser_nat_shape(n / 10);
        lemma_digit_char_val(n % 10);
        assert forall|k: int| 0 <= k < ser_nat(n).len() implies is_digit(
            #[trigger] ser_nat(n)[k],
        ) by {
            if k < ser_nat(n / 10).len() {
                assert(ser_nat(n)[k] == ser_nat(n / 10)[k]);
            } else {
                assert(ser_nat(n)[k] == digit_char(n % 10));
            }
        }
        assert(ser_nat(n)[0] == ser_nat(n / 10)[0]);
    }
}

pub proof fn lemma_digits_end_of_run(s: Seq<char>, i: int, j: int)
    requires
        0 <= i <= j <= s.len(),
        forall|k: int| i <= k < j ==> is_digit(#[trigger] s[k]),
        j == s.len() || !is_digit(s[j]),
    ensures
        digits_end(s, i) == j,
    decreases j - i,
{
    if i < j {
        assert(is_digit(s[i]));
        lemma_digits_end_of_run(s, i + 1, j);
    }
}

pub proof fn lemma_digits_val_of_ser(s: Seq<char>, i: int, n: int)
    requires
        n >= 0,
        0 <= i,
        i + ser_nat(n).len() <= s.len(),
        s.subrange(i, i + ser_nat(n).len()) == ser_nat(n),
    ensures
        digits_val(s, i, i + ser_nat(n).len()) == n,
    decreases n,
{
    let l = ser_nat(n).len() as int;
    if n < 10 {
        lemma_digit_char_val(n);
        assert(s[i] == s.subrange(i, i + 1)[0]);
        assert(digits_val(s, i, i + 1) == digits_val(s, i, i) * 10 + digit_val(s[i]));
    } else {
        let lp = ser_nat(n / 10).len() as int;
        assert(s.subrange(i, i + lp) =~= ser_nat(n / 10)) by {
            assert forall|k: int| 0 <= k < lp implies #[trigger] s.subrange(i, i + lp)[k]
                == ser_nat(n / 10)[k] by {
                assert(s.subrange(i, i + l)[k] == ser_nat(n)[k]);
            }
        }
        lemma_digits_val_of_ser(s, i, n / 10);
        lemma_digit_char_val(n % 10);
        assert(s[i + l - 1] == s.subrange(i, i + l)[l - 1]);
        assert(s[i + l - 1] == digit_char(n % 10));
        assert(digits_val(s, i, i + l) == digits_val(s, i, i + l - 1) * 10 + digit_val(
            s[i + l - 1],
        ));
        assert(n == (n / 10) * 10 + n % 10);
    }
}

pub proof fn lemma_parse_number_inverts(v: int, s: Seq<char>, i: int)
    requires
        -0x8000000000000000 <= v <= 0x7fffffffffffffff,
        0 <= i,
        i + ser_int(v).len() <= s.len(),
        s.subrange(i, i + ser_int(v).len()) == ser_int(v),
        i + ser_int(v).len() == s.len() || !is_digit(s[i + ser_int(v).len()]),
    ensures
        parse_number(s, i) == Some((JsonModel::Int(v), i + ser_int(v).len())),
{
    let l = ser_int(v).len() as int;
    if v >= 0 {
        lemma_ser_nat_shape(v);
        assert forall|k: int| i <= k < i + l implies is_digit(#[trigger] s[k]) by {
            assert(s[k] == s.subrange(i, i + l)[k - i]);
        }
        assert(s[i] == s.subrange(i, i + l)[0]);
        lemma_digits_end_of_run(s, i, i + l);
        lemma_digits_val_of_ser(s, i, v);
        if v == 0 {
            assert(s[i] == '0');
        } else {
            assert(s[i] != '0');
        }
        assert(is_digit(s[i]));
        assert(s[i] != '-') by {
            assert('-' as int == 0x2D);
        }
    } else {
        let n = -v;
        lemma_ser_nat_shape(n);
        assert(s[i] == s.subrange(i, i + l)[0]);
        assert(s[i] == '-');
        assert(s.subrange(i + 1, i + l) =~= ser_nat(n)) by {
            assert forall|k: int| 0 <= k < l - 1 implies #[trigger] s.subrange(i + 1, i + l)[k]
                == ser_nat(n)[k] by {
                assert(s.subrange(i, i + l)[k + 1] == ser_nat(n)[k]);
            }
        }
        assert forall|k: int| i + 1 <= k < i + l implies is_digit(#[trigger] s[k]) by {
            assert(s[k] == s.subrange(i + 1, i + l)[k - i - 1]);
        }
        lemma_digits_end_of_run(s, i + 1, i + l);
        lemma_digits_val_of_ser(s, i + 1, n);
        assert(s[i + 1] == s.subrange(i + 1, i + l)[0]);
        if n == 0 {
            assert(s[i + 1] == '0');
        } else {
            assert(s[i + 1] != '0');
        }
        assert(is_digit(s[i + 1]));
    }
}


pub proof fn lemma_control_char_inverts(c: char)
    requires
        0 <= c as int,
        (c as int) < 0x20,
    ensures
        control_char_of(c as int) == c,
{
    assert(control_char_of(c as int) as int == c as int);
}

pub proof fn lemma_parse_str_body_inverts(txt: Seq<char>, s: Seq<char>, i: int)
    requires
        text_in_range(txt),
        0 <= i,
        i + ser_str_body(txt).len() + 1 <= s.len(),
        s.subrange(i, i + ser_str_body(txt).len()) == ser_str_body(txt),
        s[i + ser_str_body(txt).len()] == '"',
    ensures
        parse_str_body(s, i) == Some((txt, i + ser_str_body(txt).len() + 1)),
    decreases txt.len(),
{
    let l = ser_str_body(txt).len() as int;
    if txt.len() == 0 {
        assert(txt =~= Seq::<char>::empty());
    } else {
        let c = txt[0];
        let e = esc_char(c);
        let k = e.len() as int;
        let rest = ser_str_body(txt.drop_first());
        let lr = rest.len() as int;
        assert(l == k + lr);
        assert forall|t: int| 0 <= t < k implies s[i + t] == e[t] by {
            assert(s.subrange(i, i + l)[t] == ser_str_body(txt)[t]);
        }
        assert(s.subrange(i + k, i + k + lr) =~= rest) by {
            assert forall|t: int| 0 <= t < lr implies #[trigger] s.subrange(i + k, i + k + lr)[t]
                == rest[t] by {
                assert(s.subrange(i, i + l)[k + t] == ser_str_body(txt)[k + t]);
            }
        }
        assert forall|t: int| 0 <= t < txt.drop_first().len() implies 0 <= (
        #[trigger] txt.drop_first()[t]) as int by {
            assert(txt.drop_first()[t] == txt[t + 1]);
        }
        lemma_parse_str_body_inverts(txt.drop_first(), s, i + k);
        assert(seq![c] + txt.drop_first() =~= txt);
        if c == '"' {
            assert(s[i] == '\\' && s[i + 1] == '"');
            assert(simple_escape(s[i + 1]) == Some(c));
        } else if c == '\\' {
            assert(s[i] == '\\' && s[i + 1] == '\\');
            assert(simple_escape(s[i + 1]) == Some(c));
        } else if c as int == 0x08 {
            assert(s[i] == '\\' && s[i + 1] == 'b');
            assert(simple_escape(s[i + 1]) == Some('\u{08}'));
            assert('\u{08}' as int == c as int);
            assert('\u{08}' == c);
        } else if c as int == 0x09 {
            assert(s[i] == '\\' && s[i + 1] == 't');
            assert(simple_escape(s[i + 1]) == Some('\u{09}'));
            assert('\u{09}' == c);
        } else if c as int == 0x0A {
            assert(s[i] == '\\' && s[i + 1] == 'n');
            assert(simple_escape(s[i + 1]) == Some('\u{0A}'));
            assert('\u{0A}' == c);
        } else if c as int == 0x0C {
            assert(s[i] == '\\' && s[i + 1] == 'f');
            assert(simple_escape(s[i + 1]) == Some('\u{0C}'));
            assert('\u{0C}' == c);
        } else if c as int == 0x0D {
            assert(s[i] == '\\' && s[i + 1] == 'r');
            assert(simple_escape(s[i + 1]) == Some('\u{0D}'));
            assert('\u{0D}' == c);
        } else if (c as int) < 0x20 {
            let code = c as int;
            assert(0 <= code);
            assert(s[i] == '\\' && s[i + 1] == 'u' && s[i + 2] == '0' && s[i + 3] == '0');
            assert(s[i + 4] == hex_char(code / 16) && s[i + 5] == hex_char(code % 16));
            lemma_hex_char_val(code / 16);
            lemma_hex_char_val(code % 16);
            assert(hex_val(s[i + 4]) * 16 + hex_val(s[i + 5]) == code);
            lemma_control_char_inverts(c);
        } else {
            assert(s[i] == c);
            assert(s[i] != '"' && s[i] != '\\');
            assert((s[i] as int) >= 0x20);
        }
    }
}


pub proof fn lemma_subrange_of_subrange(s: Seq<char>, i: int, l: int, a: int, b: int)
    requires
        0 <= i,
        0 <= a <= b <= l,
        i + l <= s.len(),
    ensures
        s.subrange(i + a, i + b) == s.subrange(i, i + l).subrange(a, b),
{
    assert(s.subrange(i + a, i + b) =~= s.subrange(i, i + l).subrange(a, b));
}

pub proof fn lemma_ser_value_first(j: JsonModel)
    requires
        model_in_range(j),
    ensures
        ser_value(j).len() >= 1,
        ser_value(j)[0] == 'n' || ser_value(j)[0] == 't' || ser_value(j)[0] == 'f' || ser_value(
            j,
        )[0] == '"' || ser_value(j)[0] == '[' || ser_value(j)[0] == '{' || ser_value(j)[0] == '-'
            || is_digit(ser_value(j)[0]),
{
    reveal_strlit("null");
    reveal_strlit("true");
    reveal_strlit("false");
    match j {
        JsonModel::Int(v) => {
            if v >= 0 {
                lemma_ser_nat_shape(v);
            } else {
                lemma_ser_nat_shape(-v);
            }
        },
        _ => {},
    }
}

pub proof fn lemma_parse_value_inverts(j: JsonModel, s: Seq<char>, i: int)
    requires
        model_in_range(j),
        0 <= i,
        i + ser_value(j).len() <= s.len(),
        s.subrange(i, i + ser_value(j).len()) == ser_value(j),
        i + ser_value(j).len() == s.len() || !is_digit(s[i + ser_value(j).len()]),
    ensures
        parse_value(s, i) == Some((j, i + ser_value(j).len())),
    decreases j, 0int,
{
    reveal_strlit("null");
    reveal_strlit("true");
    reveal_strlit("false");
    let l = ser_value(j).len() as int;
    assert forall|t: int| 0 <= t < l implies s[i + t] == ser_value(j)[t] by {
        assert(s.subrange(i, i + l)[t] == ser_value(j)[t]);
    }
    lemma_ser_value_first(j);
    match j {
        JsonModel::Null => {
            assert(s[i] == 'n');
        },
        JsonModel::Bool(b) => {
            if b {
                assert(s[i] == 't');
            } else {
                assert(s[i] == 'f');
            }
        },
        JsonModel::Int(v) => {
            lemma_parse_number_inverts(v, s, i);
            assert(s[i] != 'n' && s[i] != 't' && s[i] != 'f' && s[i] != '"' && s[i] != '['
                && s[i] != '{') by {
                if v >= 0 {
                    lemma_ser_nat_shape(v);
                    assert(is_digit(s[i]));
                } else {
                    assert(s[i] == '-');
                }
            }
        },
        JsonModel::Text(txt) => {
            assert(s[i] == '"');
            let lb = ser_str_body(txt).len() as int;
            assert(l == lb + 2);
            assert(s.subrange(i + 1, i + 1 + lb) =~= ser_str_body(txt)) by {
                lemma_subrange_of_subrange(s, i, l, 1, 1 + lb);
                assert forall|t: int| 0 <= t < lb implies #[trigger] ser_value(j).subrange(
                    1,
                    1 + lb,
                )[t] == ser_str_body(txt)[t] by {
                }
                assert(ser_value(j).subrange(1, 1 + lb) =~= ser_str_body(txt));
            }
            assert(s[i + 1 + lb] == '"') by {
                assert(s[i + 1 + lb] == s.subrange(i, i + l)[1 + lb]);
            }
            lemma_parse_str_body_inverts(txt, s, i + 1);
        },
        JsonModel::Arr(es) => {
            assert(s[i] == '[');
            let le = ser_elems(es).len() as int;
            assert(l == le + 2);
            assert(s.subrange(i + 1, i + 1 + le) =~= ser_elems(es)) by {
                lemma_subrange_of_subrange(s, i, l, 1, 1 + le);
                assert(ser_value(j).subrange(1, 1 + le) =~= ser_elems(es));
            }
            assert(s[i + 1 + le] == ']') by {
                assert(s[i + 1 + le] == s.subrange(i, i + l)[1 + le]);
            }
            if es.len() == 0 {
                assert(s[i + 1] == ']');
                assert(j == JsonModel::Arr(Seq::empty())) by {
                    assert(es =~= Seq::<JsonModel>::empty());
                }
            } else {
                assert(model_in_range(es[0]));
                lemma_ser_value_first(es[0]);
                assert(ser_elems(es)[0] == ser_value(es[0])[0]);
                assert(s[i + 1] == ser_elems(es)[0]);
                assert(s[i + 1] != ']') by {
                    assert(']' as int == 0x5D);
                }
                lemma_parse_elems_inverts(es, s, i + 1);
            }
        },
        JsonModel::Obj(ms) => {
            assert(s[i] == '{');
            let lm = ser_members(ms).len() as int;
            assert(l == lm + 2);
            assert(s.subrange(i + 1, i + 1 + lm) =~= ser_members(ms)) by {
                lemma_subrange_of_subrange(s, i, l, 1, 1 + lm);
                assert(ser_value(j).subrange(1, 1 + lm) =~= ser_members(ms));
            }
            assert(s[i + 1 + lm] == '}') by {
                assert(s[i + 1 + lm] == s.subrange(i, i + l)[1 + lm]);
            }
            if ms.len() == 0 {
                assert(s[i + 1] == '}');
                assert(j == JsonModel::Obj(Seq::<(Seq<char>, JsonModel)>::empty())) by {
                    assert(ms =~= Seq::<(Seq<char>, JsonModel)>::empty());
                }
            } else {
                assert(ser_members(ms)[0] == ser_text(ms[0].0)[0]);
                assert(s[i + 1] == '"');
                assert(s[i + 1] != '}') by {
                    assert('}' as int == 0x7D && '"' as int == 0x22);
                }
                lemma_parse_members_inverts(ms, s, i + 1);
            }
        },
    }
}

pub proof fn lemma_parse_elems_inverts(es: Seq<JsonModel>, s: Seq<char>, i: int)
    requires
        es.len() >= 1,
        models_in_range(es),
        0 <= i,
        i + ser_elems(es).len() + 1 <= s.len(),
        s.subrange(i, i + ser_elems(es).len()) == ser_elems(es),
        s[i + ser_elems(es).len()] == ']',
    ensures
        parse_elems(s, i) == Some((es, i + ser_elems(es).len() + 1)),
    decreases es, 1int,
{
    let le = ser_elems(es).len() as int;
    assert forall|t: int| 0 <= t < le implies s[i + t] == ser_elems(es)[t] by {
        assert(s.subrange(i, i + le)[t] == ser_elems(es)[t]);
    }
    assert(model_in_range(es[0]));
    let lv = ser_value(es[0]).len() as int;
    lemma_ser_value_first(es[0]);
    if es.len() == 1 {
        assert(le == lv);
        assert(s.subrange(i, i + lv) =~= ser_value(es[0]));
        assert(!is_digit(s[i + lv])) by {
            assert(']' as int == 0x5D);
        }
        lemma_parse_value_inverts(es[0], s, i);
        assert(s[i + lv] == ']');
        assert(seq![es[0]] =~= es);
    } else {
        assert(ser_elems(es) =~= ser_value(es[0]) + seq![','] + ser_elems(es.drop_first()));
        assert(s.subrange(i, i + lv) =~= ser_value(es[0])) by {
            lemma_subrange_of_subrange(s, i, le, 0, lv);
            assert(ser_elems(es).subrange(0, lv) =~= ser_value(es[0]));
        }
        assert(s[i + lv] == ',') by {
            assert(s[i + lv] == s.subrange(i, i + le)[lv]);
        }
        assert(!is_digit(s[i + lv])) by {
            assert(',' as int == 0x2C);
        }
        lemma_parse_value_inverts(es[0], s, i);
        let rest = es.drop_first();
        let lr = ser_elems(rest).len() as int;
        assert(le == lv + 1 + lr);
        assert(s.subrange(i + lv + 1, i + lv + 1 + lr) =~= ser_elems(rest)) by {
            lemma_subrange_of_subrange(s, i, le, lv + 1, lv + 1 + lr);
            assert(ser_elems(es).subrange(lv + 1, lv + 1 + lr) =~= ser_elems(rest));
        }
        assert(s[i + lv + 1 + lr] == ']') by {
            assert(i + lv + 1 + lr == i + le);
            assert(s[i + le] == ']');
        }
        lemma_parse_elems_inverts(rest, s, i + lv + 1);
        assert(seq![es[0]] + rest =~= es);
    }
}

pub proof fn lemma_parse_members_inverts(ms: Seq<(Seq<char>, JsonModel)>, s: Seq<char>, i: int)
    requires
        ms.len() >= 1,
        member_models_in_range(ms),
        0 <= i,
        i + ser_members(ms).len() + 1 <= s.len(),
        s.subrange(i, i + ser_members(ms).len()) == ser_members(ms),
        s[i + ser_members(ms).len()] == '}',
    ensures
        parse_members(s, i) == Some((ms, i + ser_members(ms).len() + 1)),
    decreases ms, 1int,
{
    let lm = ser_members(ms).len() as int;
    assert forall|t: int| 0 <= t < lm implies s[i + t] == ser_members(ms)[t] by {
        assert(s.subrange(i, i + lm)[t] == ser_members(ms)[t]);
    }
    let key = ms[0].0;
    let v = ms[0].1;
    assert(text_in_range(key) && model_in_range(v));
    let lk = ser_text(key).len() as int;
    let lb = ser_str_body(key).len() as int;
    let lv = ser_value(v).len() as int;
    lemma_ser_value_first(v);
    assert(s[i] == '"') by {
        assert(s[i] == s.subrange(i, i + lm)[0]);
        assert(ser_members(ms)[0] == ser_text(key)[0]);
    }
    let head = ser_text(key) + seq![':'] + ser_value(v);
    if ms.len() == 1 {
        assert(ser_members(ms) =~= head);
    } else {
        assert(ser_members(ms) =~= head + seq![','] + ser_members(ms.drop_first()));
    }
    assert(s.subrange(i + 1, i + 1 + lb) =~= ser_str_body(key)) by {
        lemma_subrange_of_subrange(s, i, lm, 1, 1 + lb);
        assert(ser_members(ms).subrange(1, 1 + lb) =~= ser_str_body(key));
    }
    assert(s[i + 1 + lb] == '"') by {
        assert(s[i + 1 + lb] == s.subrange(i, i + lm)[1 + lb]);
    }
    lemma_parse_str_body_inverts(key, s, i + 1);
    assert(s[i + lk] == ':') by {
        assert(s[i + lk] == s.subrange(i, i + lm)[lk]);
    }
    assert(s.subrange(i + lk + 1, i + lk + 1 + lv) =~= ser_value(v)) by {
        lemma_subrange_of_subrange(s, i, lm, lk + 1, lk + 1 + lv);
        assert(ser_members(ms).subrange(lk + 1, lk + 1 + lv) =~= ser_value(v));
    }
    if ms.len() == 1 {
        assert(lm == lk + 1 + lv);
        assert(s[i + lk + 1 + lv] == '}') by {
            assert(i + lk + 1 + lv == i + lm);
            assert(s[i + lm] == '}');
        }
        assert(!is_digit(s[i + lk + 1 + lv])) by {
            assert('}' as int == 0x7D);
        }
        lemma_parse_value_inverts(v, s, i + lk + 1);
        assert(seq![(key, v)] =~= ms);
    } else {
        let rest = ms.drop_first();
        let lr = ser_members(rest).len() as int;
        assert(lm == lk + 1 + lv + 1 + lr);
        assert(s[i + lk + 1 + lv] == ',') by {
            assert(s[i + lk + 1 + lv] == s.subrange(i, i + lm)[lk + 1 + lv]);
        }
        assert(!is_digit(s[i + lk + 1 + lv])) by {
            assert(',' as int == 0x2C);
        }
        lemma_parse_value_inverts(v, s, i + lk + 1);
        assert(s.subrange(i + lk + 1 + lv + 1, i + lk + 1 + lv + 1 + lr) =~= ser_members(rest))
            by {
            lemma_subrange_of_subrange(s, i, lm, lk + 1 + lv + 1, lk + 1 + lv + 1 + lr);
            assert(ser_members(ms).subrange(lk + 1 + lv + 1, lk + 1 + lv + 1 + lr)
                =~= ser_members(rest));
        }
        assert(s[i + lk + 1 + lv + 1 + lr] == '}') by {
            assert(i + lk + 1 + lv + 1 + lr == i + lm);
            assert(s[i + lm] == '}');
        }
        lemma_parse_members_inverts(rest, s, i + lk + 1 + lv + 1);
        assert(seq![(key, v)] + rest =~= ms);
    }
}

/// The canonical text of any representable value parses back to that value.
pub proof fn lemma_value_round_trip(j: JsonModel)
    requires
        model_in_range(j),
    ensures
        parse_json_text(ser_value(j)) == Some(j),
{
    let s = ser_value(j);
    assert(s.subrange(0, s.len() as int) =~= s);
    lemma_parse_value_inverts(j, s, 0);
}

} // verus!
