//! A small JSON tree, with an encoder and a strict parser.
//!
//! The parser is the specification: each executable function returns
//! exactly what its spec-level twin denotes, so contracts elsewhere can
//! speak about parsing results directly.

use vstd::prelude::*;
use crate::strutil::push_char;

verus! {

broadcast use
    vstd::seq::axiom_seq_subrange_decreases,
    vstd::seq::axiom_seq_index_decreases,
    vstd::std_specs::vec::group_vec_axioms;


/// A JSON value.
pub enum Json {
    JNull,
    JBool(bool),
    JNum(u128),
    JStr(String),
    JArr(Vec<Json>),
    JObj(Vec<(String, Json)>),
}

/// Is `c` a decimal digit?
pub open spec fn is_digit(c: char) -> bool {
    48 <= c as u32 && c as u32 <= 57
}

/// One hex digit, lowercase.
pub open spec fn hex_digit(n: int) -> char {
    if n < 10 {
        ((48 + n) as u8) as char
    } else {
        ((87 + n) as u8) as char
    }
}

/// The escape sequence of one string character.
pub open spec fn esc_char(c: char) -> Seq<char> {
    if c == '"' {
        seq!['\\', '"']
    } else if c == '\\' {
        seq!['\\', '\\']
    } else if c == '\n' {
        seq!['\\', 'n']
    } else if c == '\r' {
        seq!['\\', 'r']
    } else if c == '\t' {
        seq!['\\', 't']
    } else if (c as u32) < 32 {
        seq!['\\', 'u', '0', '0', hex_digit((c as u32 / 16) as int), hex_digit((c as u32 % 16) as int)]
    } else {
        seq![c]
    }
}

/// The escaped body of a string.
pub open spec fn esc_seq(s: Seq<char>) -> Seq<char>
    decreases s.len(),
{
    if s.len() == 0 {
        Seq::empty()
    } else {
        esc_char(s[0]) + esc_seq(s.skip(1))
    }
}

/// Decimal digits of `n`.
pub open spec fn dec_u128(n: nat) -> Seq<char>
    decreases n,
{
    if n < 10 {
        seq![((48 + n) as u8) as char]
    } else {
        dec_u128(n / 10).push(((48 + n % 10) as u8) as char)
    }
}

/// The canonical text of a JSON value: no whitespace, keys in stored
/// order, strings minimally escaped.
pub open spec fn enc_json(j: Json) -> Seq<char>
    decreases j,
{
    match j {
        Json::JNull => seq!['n', 'u', 'l', 'l'],
        Json::JBool(b) => if b {
            seq!['t', 'r', 'u', 'e']
        } else {
            seq!['f', 'a', 'l', 's', 'e']
        },
        Json::JNum(n) => dec_u128(n as nat),
        Json::JStr(s) => seq!['"'] + esc_seq(s@) + seq!['"'],
        Json::JArr(items) => seq!['['] + enc_items(items@) + seq![']'],
        Json::JObj(fields) => seq!['{'] + enc_fields(fields@) + seq!['}'],
    }
}

/// Comma-joined encoded array items.
pub open spec fn enc_items(items: Seq<Json>) -> Seq<char>
    decreases items,
{
    if items.len() == 0 {
        Seq::empty()
    } else if items.len() == 1 {
        enc_json(items[0])
    } else {
        enc_json(items[0]) + seq![','] + enc_items(items.skip(1))
    }
}

/// Comma-joined encoded object members.
pub open spec fn enc_fields(fields: Seq<(String, Json)>) -> Seq<char>
    decreases fields,
{
    if fields.len() == 0 {
        Seq::empty()
    } else if fields.len() == 1 {
        enc_field(fields[0])
    } else {
        enc_field(fields[0]) + seq![','] + enc_fields(fields.skip(1))
    }
}

/// One encoded object member.
pub open spec fn enc_field(f: (String, Json)) -> Seq<char>
    decreases f,
{
    seq!['"'] + esc_seq(f.0@) + seq!['"', ':'] + enc_json(f.1)
}

/// Renders one character of a string body.
fn push_escaped(out: &mut String, c: char)
    ensures
        final(out)@ == old(out)@ + esc_char(c),
{
    if c == '"' {
        push_char(out, '\\');
        push_char(out, '"');
    } else if c == '\\' {
        push_char(out, '\\');
        push_char(out, '\\');
    } else if c == '\n' {
        push_char(out, '\\');
        push_char(out, 'n');
    } else if c == '\r' {
        push_char(out, '\\');
        push_char(out, 'r');
    } else if c == '\t' {
        push_char(out, '\\');
        push_char(out, 't');
    } else if (c as u32) < 32 {
        push_char(out, '\\');
        push_char(out, 'u');
        push_char(out, '0');
        push_char(out, '0');
        let hi = (c as u32) / 16;
        let lo = (c as u32) % 16;
        let hc: u8 = if hi < 10 {
            48 + (hi as u8)
        } else {
            87 + (hi as u8)
        };
        let lc: u8 = if lo < 10 {
            48 + (lo as u8)
        } else {
            87 + (lo as u8)
        };
        push_char(out, hc as char);
        push_char(out, lc as char);
    } else {
        push_char(out, c);
    }
    proof {
        assert(final(out)@ =~= old(out)@ + esc_char(c));
    }
}

/// Appends the escaped body of `s` to `out`.
fn push_escaped_str(out: &mut String, s: &str)
    ensures
        final(out)@ == old(out)@ + esc_seq(s@),
{
    let n = s.unicode_len();
    let mut i: usize = 0;
    while i < n
        invariant
            i <= n,
            n == s@.len(),
            out@ == old(out)@ + esc_seq(s@.take(i as int)),
        decreases n - i,
    {
        let ghost before = out@;
        let c = s.get_char(i);
        push_escaped(out, c);
        proof {
            lemma_esc_take_step(s@, i as int);
        }
        i += 1;
    }
    proof {
        assert(s@.take(n as int) =~= s@);
    }
}

proof fn lemma_esc_take_step(s: Seq<char>, i: int)
    requires
        0 <= i < s.len(),
    ensures
        esc_seq(s.take(i + 1)) == esc_seq(s.take(i)) + esc_char(s[i]),
    decreases i,
{
    if i == 0 {
        assert(s.take(1)[0] == s[0]);
        assert(s.take(1).skip(1) =~= Seq::<char>::empty());
        assert(esc_seq(Seq::<char>::empty()) =~= Seq::<char>::empty());
        assert(esc_seq(s.take(1)) =~= esc_char(s[0]));
        assert(s.take(0) =~= Seq::<char>::empty());
        assert(esc_seq(s.take(1)) =~= esc_seq(s.take(0)) + esc_char(s[0]));
    } else {
        lemma_esc_take_step(s.skip(1), i - 1);
        assert(s.take(i + 1)[0] == s[0]);
        assert(s.take(i + 1).skip(1) =~= s.skip(1).take(i));
        assert(s.take(i).skip(1) =~= s.skip(1).take(i - 1));
        assert(s.take(i)[0] == s[0]);
        assert(s.skip(1)[i - 1] == s[i]);
        assert(esc_seq(s.take(i + 1)) =~= esc_char(s[0]) + esc_seq(s.skip(1).take(i)));
        assert(esc_char(s[0]) + (esc_seq(s.skip(1).take(i - 1)) + esc_char(s[i])) =~= (esc_char(
            s[0],
        ) + esc_seq(s.skip(1).take(i - 1))) + esc_char(s[i]));
        assert(esc_seq(s.take(i)) =~= esc_char(s[0]) + esc_seq(s.skip(1).take(i - 1)));
    }
}

/// Renders `n` in decimal.
pub fn u128_to_string(n: u128) -> (r: String)
    ensures
        r@ == dec_u128(n as nat),
    decreases n,
{
    if n < 10 {
        let d: u8 = 48 + (n as u8);
        let mut r = String::new();
        push_char(&mut r, d as char);
        proof {
            assert(r@ =~= dec_u128(n as nat));
        }
        r
    } else {
        let mut r = u128_to_string(n / 10);
        let d: u8 = 48 + ((n % 10) as u8);
        push_char(&mut r, d as char);
        r
    }
}

/// Renders a JSON value as canonical text.
pub fn encode_json(j: &Json) -> (r: String)
    ensures
        r@ == enc_json(*j),
    decreases *j,
{
    match j {
        Json::JNull => {
            proof {
                reveal_strlit("null");
                assert("null"@ =~= enc_json(Json::JNull));
            }
            "null".to_owned()
        },
        Json::JBool(b) => if *b {
            proof {
                reveal_strlit("true");
                assert("true"@ =~= enc_json(Json::JBool(true)));
            }
            "true".to_owned()
        } else {
            proof {
                reveal_strlit("false");
                assert("false"@ =~= enc_json(Json::JBool(false)));
            }
            "false".to_owned()
        },
        Json::JNum(n) => u128_to_string(*n),
        Json::JStr(s) => {
            let mut out = String::new();
            push_char(&mut out, '"');
            push_escaped_str(&mut out, s.as_str());
            push_char(&mut out, '"');
            proof {
                assert(out@ =~= enc_json(*j));
            }
            out
        },
        Json::JArr(items) => {
            let mut out = String::new();
            push_char(&mut out, '[');
            let mut i: usize = 0;
            while i < items.len()
                invariant
                    (*j) is JArr,
                    j->JArr_0 == *items,
                    i <= items@.len(),
                    out@ == seq!['['] + enc_items_prefix(items@, i as int),
                decreases items@.len() - i,
            {
                if i > 0 {
                    push_char(&mut out, ',');
                }
                proof {
                    assert(decreases_to!(*j => j->JArr_0));
                    assert(j->JArr_0 == *items);
                    assert(decreases_to!(*items => items@));
                    assert(decreases_to!(items@ => items@[i as int]));
                }
                let piece = encode_json(&items[i]);
                out.append(piece.as_str());
                proof {
                    lemma_enc_items_prefix_step(items@, i as int);
                }
                i += 1;
            }
            push_char(&mut out, ']');
            proof {
                lemma_enc_items_prefix_full(items@);
                assert(out@ =~= enc_json(*j));
            }
            out
        },
        Json::JObj(fields) => {
            let mut out = String::new();
            push_char(&mut out, '{');
            let mut i: usize = 0;
            while i < fields.len()
                invariant
                    (*j) is JObj,
                    j->JObj_0 == *fields,
                    i <= fields@.len(),
                    out@ == seq!['{'] + enc_fields_prefix(fields@, i as int),
                decreases fields@.len() - i,
            {
                if i > 0 {
                    push_char(&mut out, ',');
                }
                push_char(&mut out, '"');
                push_escaped_str(&mut out, fields[i].0.as_str());
                push_char(&mut out, '"');
                push_char(&mut out, ':');
                proof {
                    assert(decreases_to!(*j => j->JObj_0));
                    assert(j->JObj_0 == *fields);
                    assert(decreases_to!(*fields => fields@));
                    assert(decreases_to!(fields@ => fields@[i as int]));
                    assert(decreases_to!(fields@[i as int] => fields@[i as int].1));
                }
                let piece = encode_json(&fields[i].1);
                out.append(piece.as_str());
                proof {
                    lemma_enc_fields_prefix_step(fields@, i as int);
                    assert(out@ =~= seq!['{'] + enc_fields_prefix(fields@, i + 1));
                }
                i += 1;
            }
            push_char(&mut out, '}');
            proof {
                lemma_enc_fields_prefix_full(fields@);
                assert(out@ =~= enc_json(*j));
            }
            out
        },
    }
}

/// The first `i` items, encoded with separating commas.
pub open spec fn enc_items_prefix(items: Seq<Json>, i: int) -> Seq<char>
    decreases i,
{
    if i <= 0 {
        Seq::empty()
    } else if i == 1 {
        enc_json(items[0])
    } else {
        enc_items_prefix(items, i - 1) + seq![','] + enc_json(items[i - 1])
    }
}

proof fn lemma_enc_items_prefix_step(items: Seq<Json>, i: int)
    requires
        0 <= i < items.len(),
    ensures
        enc_items_prefix(items, i + 1) == if i == 0 {
            enc_json(items[0])
        } else {
            enc_items_prefix(items, i) + seq![','] + enc_json(items[i])
        },
{
}

proof fn lemma_enc_items_prefix_full(items: Seq<Json>)
    ensures
        enc_items(items) == enc_items_prefix(items, items.len() as int),
    decreases items.len(),
{
    if items.len() > 1 {
        lemma_enc_items_prefix_full(items.skip(1));
        lemma_enc_items_shift(items, items.len() as int);
    }
}

/// Shifting the prefix view by one item.
proof fn lemma_enc_items_shift(items: Seq<Json>, i: int)
    requires
        1 <= i <= items.len(),
        items.len() >= 1,
    ensures
        enc_items_prefix(items, i) == if i == 1 {
            enc_json(items[0])
        } else {
            enc_json(items[0]) + seq![','] + enc_items_prefix(items.skip(1), i - 1)
        },
    decreases i,
{
    if i > 1 {
        lemma_enc_items_shift(items, i - 1);
        assert(items.skip(1)[i - 2] == items[i - 1]);
        if i == 2 {
            assert(enc_items_prefix(items, 2) =~= enc_json(items[0]) + seq![','] + enc_json(
                items[1],
            ));
            assert(enc_items_prefix(items.skip(1), 1) == enc_json(items.skip(1)[0]));
        } else {
            assert((enc_json(items[0]) + seq![','] + enc_items_prefix(items.skip(1), i - 2))
                + seq![','] + enc_json(items[i - 1]) =~= enc_json(items[0]) + seq![','] + (
            enc_items_prefix(items.skip(1), i - 2) + seq![','] + enc_json(items.skip(1)[i - 2])));
        }
    }
}

/// The first `i` members, encoded with separating commas.
pub open spec fn enc_fields_prefix(fields: Seq<(String, Json)>, i: int) -> Seq<char>
    decreases i,
{
    if i <= 0 {
        Seq::empty()
    } else if i == 1 {
        enc_field(fields[0])
    } else {
        enc_fields_prefix(fields, i - 1) + seq![','] + enc_field(fields[i - 1])
    }
}

proof fn lemma_enc_fields_prefix_step(fields: Seq<(String, Json)>, i: int)
    requires
        0 <= i < fields.len(),
    ensures
        enc_fields_prefix(fields, i + 1) == if i == 0 {
            enc_field(fields[0])
        } else {
            enc_fields_prefix(fields, i) + seq![','] + enc_field(fields[i])
        },
{
}

proof fn lemma_enc_fields_prefix_full(fields: Seq<(String, Json)>)
    ensures
        enc_fields(fields) == enc_fields_prefix(fields, fields.len() as int),
    decreases fields.len(),
{
    if fields.len() > 1 {
        lemma_enc_fields_prefix_full(fields.skip(1));
        lemma_enc_fields_shift(fields, fields.len() as int);
    }
}

proof fn lemma_enc_fields_shift(fields: Seq<(String, Json)>, i: int)
    requires
        1 <= i <= fields.len(),
        fields.len() >= 1,
    ensures
        enc_fields_prefix(fields, i) == if i == 1 {
            enc_field(fields[0])
        } else {
            enc_field(fields[0]) + seq![','] + enc_fields_prefix(fields.skip(1), i - 1)
        },
    decreases i,
{
    if i > 1 {
        lemma_enc_fields_shift(fields, i - 1);
        assert(fields.skip(1)[i - 2] == fields[i - 1]);
        if i == 2 {
            assert(enc_fields_prefix(fields, 2) =~= enc_field(fields[0]) + seq![','] + enc_field(
                fields[1],
            ));
            assert(enc_fields_prefix(fields.skip(1), 1) == enc_field(fields.skip(1)[0]));
        } else {
            assert((enc_field(fields[0]) + seq![','] + enc_fields_prefix(fields.skip(1), i - 2))
                + seq![','] + enc_field(fields[i - 1]) =~= enc_field(fields[0]) + seq![','] + (
            enc_fields_prefix(fields.skip(1), i - 2) + seq![','] + enc_field(
                fields.skip(1)[i - 2],
            )));
        }
    }
}

} // verus!

verus! {

/// Decoded escape at `i` (which points at the backslash): the character
/// and the index after the escape.
pub open spec fn sp_escape(s: Seq<char>, i: int) -> Option<(char, int)> {
    if i + 1 >= s.len() {
        None
    } else {
        let c = s[i + 1];
        if c == '"' {
            Some(('"', i + 2))
        } else if c == '\\' {
            Some(('\\', i + 2))
        } else if c == '/' {
            Some(('/', i + 2))
        } else if c == 'n' {
            Some(('\n', i + 2))
        } else if c == 'r' {
            Some(('\r', i + 2))
        } else if c == 't' {
            Some(('\t', i + 2))
        } else if c == 'u' && i + 5 < s.len() {
            match (hex_val(s[i + 2]), hex_val(s[i + 3]), hex_val(s[i + 4]), hex_val(s[i + 5])) {
                (Some(a), Some(b), Some(cc), Some(d)) => {
                    let code = ((a * 16 + b) * 16 + cc) * 16 + d;
                    if code < 0xd800 || code > 0xdfff {
                        Some(((code as u32) as char, i + 6))
                    } else {
                        None
                    }
                },
                _ => None,
            }
        } else {
            None
        }
    }
}

/// Value of one hex digit.
pub open spec fn hex_val(c: char) -> Option<int> {
    if 48 <= c as u32 && c as u32 <= 57 {
        Some(c as u32 - 48)
    } else if 97 <= c as u32 && c as u32 <= 102 {
        Some(c as u32 - 87)
    } else if 65 <= c as u32 && c as u32 <= 70 {
        Some(c as u32 - 55)
    } else {
        None
    }
}

/// The body of a string starting at `i` (after the opening quote): the
/// content and the index after the closing quote.
pub open spec fn sp_chars(s: Seq<char>, i: int) -> Option<(Seq<char>, int)>
    decreases s.len() - i,
{
    if i < 0 || i >= s.len() {
        None
    } else if s[i] == '"' {
        Some((Seq::empty(), i + 1))
    } else if s[i] == '\\' {
        match sp_escape(s, i) {
            Some((c, j)) => if j > i {
                match sp_chars(s, j) {
                    Some((rest, m)) => Some((seq![c] + rest, m)),
                    None => None,
                }
            } else {
                None
            },
            None => None,
        }
    } else {
        match sp_chars(s, i + 1) {
            Some((rest, m)) => Some((seq![s[i]] + rest, m)),
            None => None,
        }
    }
}

/// A quoted string at `i`.
pub open spec fn sp_string(s: Seq<char>, i: int) -> Option<(Seq<char>, int)> {
    if 0 <= i < s.len() && s[i] == '"' {
        sp_chars(s, i + 1)
    } else {
        None
    }
}

/// Digits from `i` folded onto `acc`; fails on overflow.
pub open spec fn sp_digits(s: Seq<char>, i: int, acc: u128) -> (u128, int)
    decreases s.len() - i,
{
    if i < 0 || i >= s.len() || !is_digit(s[i]) {
        (acc, i)
    } else {
        let d = (s[i] as u32 - 48) as u128;
        if acc > (0xffff_ffff_ffff_ffff_ffff_ffff_ffff_ffff - d) / 10 {
            (acc, i)  // overflow: stop here; sp_num rejects by a digit following
        } else {
            sp_digits(s, i + 1, (acc * 10 + d) as u128)
        }
    }
}

/// An unsigned decimal number at `i`.
pub open spec fn sp_num(s: Seq<char>, i: int) -> Option<(u128, int)> {
    if 0 <= i < s.len() && is_digit(s[i]) {
        let (n, j) = sp_digits(s, i, 0);
        if j < s.len() && is_digit(s[j]) {
            None  // stopped by overflow
        } else {
            Some((n, j))
        }
    } else {
        None
    }
}

/// The spec-level shape of a JSON value.
pub enum JsonV {
    VNull,
    VBool(bool),
    VNum(u128),
    VStr(Seq<char>),
    VArr(Seq<JsonV>),
    VObj(Seq<(Seq<char>, JsonV)>),
}

impl Json {
    /// The spec-level shape of this value.
    pub open spec fn v(self) -> JsonV
        decreases self,
    {
        match self {
            Json::JNull => JsonV::VNull,
            Json::JBool(b) => JsonV::VBool(b),
            Json::JNum(n) => JsonV::VNum(n),
            Json::JStr(s) => JsonV::VStr(s@),
            Json::JArr(items) => JsonV::VArr(vs_of(items@)),
            Json::JObj(fields) => JsonV::VObj(fvs_of(fields@)),
        }
    }
}

/// The spec shapes of a list of values.
pub open spec fn vs_of(items: Seq<Json>) -> Seq<JsonV>
    decreases items,
{
    if items.len() == 0 {
        Seq::empty()
    } else {
        seq![items[0].v()] + vs_of(items.skip(1))
    }
}

/// The spec shapes of a list of members.
pub open spec fn fvs_of(fields: Seq<(String, Json)>) -> Seq<(Seq<char>, JsonV)>
    decreases fields,
{
    if fields.len() == 0 {
        Seq::empty()
    } else {
        seq![(fields[0].0@, fields[0].1.v())] + fvs_of(fields.skip(1))
    }
}

/// A JSON value at `i`: object, array, string, number, or literal.
/// Strict: no whitespace between tokens.
pub open spec fn sp_value(s: Seq<char>, i: int) -> Option<(JsonV, int)>
    decreases s.len() - i, 0int,
{
    if i < 0 || i >= s.len() {
        None
    } else if s[i] == '{' {
        if i + 1 < s.len() && s[i + 1] == '}' {
            Some((JsonV::VObj(Seq::empty()), i + 2))
        } else {
            match sp_members(s, i + 1) {
                Some((fields, j)) => Some((JsonV::VObj(fields), j)),
                None => None,
            }
        }
    } else if s[i] == '[' {
        if i + 1 < s.len() && s[i + 1] == ']' {
            Some((JsonV::VArr(Seq::empty()), i + 2))
        } else {
            match sp_elements(s, i + 1) {
                Some((items, j)) => Some((JsonV::VArr(items), j)),
                None => None,
            }
        }
    } else if s[i] == '"' {
        match sp_chars(s, i + 1) {
            Some((content, j)) => Some((JsonV::VStr(content), j)),
            None => None,
        }
    } else if is_digit(s[i]) {
        match sp_num(s, i) {
            Some((n, j)) => Some((JsonV::VNum(n), j)),
            None => None,
        }
    } else if s[i] == 't' {
        if i + 3 < s.len() && s[i + 1] == 'r' && s[i + 2] == 'u' && s[i + 3] == 'e' {
            Some((JsonV::VBool(true), i + 4))
        } else {
            None
        }
    } else if s[i] == 'f' {
        if i + 4 < s.len() && s[i + 1] == 'a' && s[i + 2] == 'l' && s[i + 3] == 's' && s[i + 4]
            == 'e' {
            Some((JsonV::VBool(false), i + 5))
        } else {
            None
        }
    } else if s[i] == 'n' {
        if i + 3 < s.len() && s[i + 1] == 'u' && s[i + 2] == 'l' && s[i + 3] == 'l' {
            Some((JsonV::VNull, i + 4))
        } else {
            None
        }
    } else {
        None
    }
}

/// One or more `"key":value` members, up to and including the closing
/// brace.
pub open spec fn sp_members(s: Seq<char>, i: int) -> Option<(Seq<(Seq<char>, JsonV)>, int)>
    decreases s.len() - i, 1int,
{
    if i < 0 || i >= s.len() {
        None
    } else {
        match sp_string(s, i) {
            Some((key, j)) => if j > i && j < s.len() && s[j] == ':' {
                match sp_value(s, j + 1) {
                    Some((v, m)) => if m > j && m < s.len() {
                        if s[m] == ',' {
                            match sp_members(s, m + 1) {
                                Some((rest, e)) => Some((seq![(key, v)] + rest, e)),
                                None => None,
                            }
                        } else if s[m] == '}' {
                            Some((seq![(key, v)], m + 1))
                        } else {
                            None
                        }
                    } else {
                        None
                    },
                    None => None,
                }
            } else {
                None
            },
            None => None,
        }
    }
}

/// One or more array elements, up to and including the closing bracket.
pub open spec fn sp_elements(s: Seq<char>, i: int) -> Option<(Seq<JsonV>, int)>
    decreases s.len() - i, 1int,
{
    if i < 0 || i >= s.len() {
        None
    } else {
        match sp_value(s, i) {
            Some((v, m)) => if m > i && m < s.len() {
                if s[m] == ',' {
                    match sp_elements(s, m + 1) {
                        Some((rest, e)) => Some((seq![v] + rest, e)),
                        None => None,
                    }
                } else if s[m] == ']' {
                    Some((seq![v], m + 1))
                } else {
                    None
                }
            } else {
                None
            },
            None => None,
        }
    }
}

} // verus!

verus! {

/// Relies on `char::from_u32`: every code point outside the surrogate
/// range and below the scalar maximum converts to the matching `char`.
#[verifier::external_body]
fn char_from_code(u: u32) -> (r: char)
    requires
        u < 0xd800 || (0xe000 <= u && u <= 0x10ffff),
    ensures
        r == u as char,
{
    char::from_u32(u).unwrap_or('\u{fffd}')
}

/// Value of one hex digit.
fn p_hex_val(c: char) -> (r: Option<u32>)
    ensures
        match r {
            Some(v) => hex_val(c) == Some(v as int) && v < 16,
            None => hex_val(c) is None,
        },
{
    let u = c as u32;
    if 48 <= u && u <= 57 {
        Some(u - 48)
    } else if 97 <= u && u <= 102 {
        Some(u - 87)
    } else if 65 <= u && u <= 70 {
        Some(u - 55)
    } else {
        None
    }
}

/// Decodes one escape sequence.
fn p_escape(cs: &Vec<char>, i: usize) -> (r: Option<(char, usize)>)
    requires
        (i as int) < cs@.len(),
    ensures
        match r {
            Some(p) => sp_escape(cs@, i as int) == Some((p.0, p.1 as int)) && i < p.1 && (
            p.1 as int) <= cs@.len(),
            None => sp_escape(cs@, i as int) is None,
        },
{
    if cs.len() - i < 2 {
        return None;
    }
    let c = cs[i + 1];
    if c == '"' {
        Some(('"', i + 2))
    } else if c == '\\' {
        Some(('\\', i + 2))
    } else if c == '/' {
        Some(('/', i + 2))
    } else if c == 'n' {
        Some(('\n', i + 2))
    } else if c == 'r' {
        Some(('\r', i + 2))
    } else if c == 't' {
        Some(('\t', i + 2))
    } else if c == 'u' && cs.len() - i > 5 {
        let a = p_hex_val(cs[i + 2]);
        let b = p_hex_val(cs[i + 3]);
        let cc = p_hex_val(cs[i + 4]);
        let d = p_hex_val(cs[i + 5]);
        match (a, b, cc, d) {
            (Some(a), Some(b), Some(cc), Some(d)) => {
                let code = ((a * 16 + b) * 16 + cc) * 16 + d;
                if code < 0xd800 || code > 0xdfff {
                    Some((char_from_code(code), i + 6))
                } else {
                    None
                }
            },
            _ => None,
        }
    } else {
        None
    }
}

/// Parses a string body after the opening quote.
fn p_chars(cs: &Vec<char>, i: usize) -> (r: Option<(String, usize)>)
    ensures
        match r {
            Some(p) => sp_chars(cs@, i as int) matches Some(q) && q.0 == p.0@ && q.1 == p.1 as int
                && i < p.1 && (p.1 as int) <= cs@.len(),
            None => sp_chars(cs@, i as int) is None,
        },
    decreases cs@.len() - i,
{
    if i >= cs.len() {
        return None;
    }
    let c = cs[i];
    if c == '"' {
        let mut s = String::new();
        proof {
            assert(s@ =~= Seq::<char>::empty());
        }
        Some((s, i + 1))
    } else if c == '\\' {
        match p_escape(cs, i) {
            Some((e, j)) => {
                match p_chars(cs, j) {
                    Some((rest, m)) => {
                        let mut s = String::new();
                        push_char(&mut s, e);
                        s.append(rest.as_str());
                        proof {
                            assert(s@ =~= seq![e] + rest@);
                        }
                        Some((s, m))
                    },
                    None => None,
                }
            },
            None => None,
        }
    } else {
        match p_chars(cs, i + 1) {
            Some((rest, m)) => {
                let mut s = String::new();
                push_char(&mut s, c);
                s.append(rest.as_str());
                proof {
                    assert(s@ =~= seq![c] + rest@);
                }
                Some((s, m))
            },
            None => None,
        }
    }
}

/// Folds digits onto `acc`.
fn p_digits(cs: &Vec<char>, i: usize, acc: u128) -> (r: (u128, usize))
    requires
        i <= cs@.len(),
    ensures
        sp_digits(cs@, i as int, acc) == (r.0, r.1 as int),
        i <= r.1 && (r.1 as int) <= cs@.len(),
    decreases cs@.len() - i,
{
    if i >= cs.len() {
        return (acc, i);
    }
    let c = cs[i];
    let u = c as u32;
    if !(48 <= u && u <= 57) {
        return (acc, i);
    }
    let d = (u - 48) as u128;
    if acc > (0xffff_ffff_ffff_ffff_ffff_ffff_ffff_ffff - d) / 10 {
        (acc, i)
    } else {
        p_digits(cs, i + 1, acc * 10 + d)
    }
}

/// Parses a JSON value at `i`.
pub fn p_value(cs: &Vec<char>, i: usize) -> (r: Option<(Json, usize)>)
    ensures
        match r {
            Some(p) => sp_value(cs@, i as int) matches Some(q) && q.0 == p.0.v() && q.1
                == p.1 as int && i < p.1 && (p.1 as int) <= cs@.len(),
            None => sp_value(cs@, i as int) is None,
        },
    decreases cs@.len() - i, 0int,
{
    if i >= cs.len() {
        return None;
    }
    let c = cs[i];
    if c == '{' {
        if cs.len() - i > 1 && cs[i + 1] == '}' {
            let fields: Vec<(String, Json)> = Vec::new();
            proof {
                assert(fvs_of(fields@) =~= Seq::<(Seq<char>, JsonV)>::empty());
            }
            Some((Json::JObj(fields), i + 2))
        } else {
            match p_members(cs, i + 1) {
                Some((fields, j)) => Some((Json::JObj(fields), j)),
                None => None,
            }
        }
    } else if c == '[' {
        if cs.len() - i > 1 && cs[i + 1] == ']' {
            let items: Vec<Json> = Vec::new();
            proof {
                assert(vs_of(items@) =~= Seq::<JsonV>::empty());
            }
            Some((Json::JArr(items), i + 2))
        } else {
            match p_elements(cs, i + 1) {
                Some((items, j)) => Some((Json::JArr(items), j)),
                None => None,
            }
        }
    } else if c == '"' {
        match p_chars(cs, i + 1) {
            Some((content, j)) => Some((Json::JStr(content), j)),
            None => None,
        }
    } else if 48 <= (c as u32) && (c as u32) <= 57 {
        let (n, j) = p_digits(cs, i, 0);
        if j < cs.len() && 48 <= (cs[j] as u32) && (cs[j] as u32) <= 57 {
            None
        } else {
            Some((Json::JNum(n), j))
        }
    } else if c == 't' {
        if cs.len() - i > 3 && cs[i + 1] == 'r' && cs[i + 2] == 'u' && cs[i + 3] == 'e' {
            Some((Json::JBool(true), i + 4))
        } else {
            None
        }
    } else if c == 'f' {
        if cs.len() - i > 4 && cs[i + 1] == 'a' && cs[i + 2] == 'l' && cs[i + 3] == 's' && cs[i
            + 4] == 'e' {
            Some((Json::JBool(false), i + 5))
        } else {
            None
        }
    } else if c == 'n' {
        if cs.len() - i > 3 && cs[i + 1] == 'u' && cs[i + 2] == 'l' && cs[i + 3] == 'l' {
            Some((Json::JNull, i + 4))
        } else {
            None
        }
    } else {
        None
    }
}

/// Parses object members after the opening brace.
fn p_members(cs: &Vec<char>, i: usize) -> (r: Option<(Vec<(String, Json)>, usize)>)
    ensures
        match r {
            Some(p) => sp_members(cs@, i as int) matches Some(q) && q.0 == fvs_of(p.0@) && q.1
                == p.1 as int && i < p.1 && (p.1 as int) <= cs@.len(),
            None => sp_members(cs@, i as int) is None,
        },
    decreases cs@.len() - i, 1int,
{
    if i >= cs.len() {
        return None;
    }
    if cs[i] != '"' {
        return None;
    }
    let (key, j) = match p_chars(cs, i + 1) {
        Some(p) => p,
        None => {
            return None;
        },
    };
    if !(j < cs.len() && cs[j] == ':') {
        return None;
    }
    let (v, m) = match p_value(cs, j + 1) {
        Some(p) => p,
        None => {
            return None;
        },
    };
    if !(m < cs.len()) {
        return None;
    }
    if cs[m] == ',' {
        match p_members(cs, m + 1) {
            Some((mut rest, e)) => {
                let ghost prev = rest@;
                let ghost keyv = key@;
                let ghost vv = v.v();
                rest.insert(0, (key, v));
                proof {
                    assert(rest@[0].0@ == keyv);
                    assert(rest@[0].1.v() == vv);
                    assert(rest@.skip(1) =~= prev);
                    assert(fvs_of(rest@) =~= seq![(keyv, vv)] + fvs_of(prev));
                }
                Some((rest, e))
            },
            None => None,
        }
    } else if cs[m] == '}' {
        let mut fields: Vec<(String, Json)> = Vec::new();
        fields.push((key, v));
        proof {
            assert(fields@.skip(1) =~= Seq::<(String, Json)>::empty());
            assert(fvs_of(fields@.skip(1)) =~= Seq::<(Seq<char>, JsonV)>::empty());
            assert(fvs_of(fields@) =~= seq![(fields@[0].0@, fields@[0].1.v())]);
        }
        Some((fields, m + 1))
    } else {
        None
    }
}

/// Parses array elements after the opening bracket.
fn p_elements(cs: &Vec<char>, i: usize) -> (r: Option<(Vec<Json>, usize)>)
    ensures
        match r {
            Some(p) => sp_elements(cs@, i as int) matches Some(q) && q.0 == vs_of(p.0@) && q.1
                == p.1 as int && i < p.1 && (p.1 as int) <= cs@.len(),
            None => sp_elements(cs@, i as int) is None,
        },
    decreases cs@.len() - i, 1int,
{
    if i >= cs.len() {
        return None;
    }
    let (v, m) = match p_value(cs, i) {
        Some(p) => p,
        None => {
            return None;
        },
    };
    if !(m < cs.len()) {
        return None;
    }
    if cs[m] == ',' {
        match p_elements(cs, m + 1) {
            Some((mut rest, e)) => {
                let ghost prev = rest@;
                let ghost vv = v.v();
                rest.insert(0, v);
                proof {
                    assert(rest@[0].v() == vv);
                    assert(rest@.skip(1) =~= prev);
                    assert(vs_of(rest@) =~= seq![vv] + vs_of(prev));
                }
                Some((rest, e))
            },
            None => None,
        }
    } else if cs[m] == ']' {
        let mut items: Vec<Json> = Vec::new();
        items.push(v);
        proof {
            assert(items@.skip(1) =~= Seq::<Json>::empty());
            assert(vs_of(items@.skip(1)) =~= Seq::<JsonV>::empty());
            assert(vs_of(items@) =~= seq![items@[0].v()]);
        }
        Some((items, m + 1))
    } else {
        None
    }
}

/// The characters of `s`, as a vector.
pub fn str_to_chars(s: &str) -> (r: Vec<char>)
    ensures
        r@ == s@,
{
    let n = s.unicode_len();
    let mut r: Vec<char> = Vec::new();
    let mut i: usize = 0;
    while i < n
        invariant
            i <= n,
            n == s@.len(),
            r@ == s@.take(i as int),
        decreases n - i,
    {
        r.push(s.get_char(i));
        proof {
            assert(r@ =~= s@.take(i + 1));
        }
        i += 1;
    }
    proof {
        assert(s@.take(n as int) =~= s@);
    }
    r
}

/// Parses one complete JSON text: a value covering the whole input.
pub fn parse_json(s: &str) -> (r: Option<Json>)
    ensures
        match r {
            Some(v) => sp_value(s@, 0) matches Some(q) && q.0 == v.v() && q.1 == s@.len(),
            None => !(sp_value(s@, 0) matches Some(q) && q.1 == s@.len()),
        },
{
    let cs = str_to_chars(s);
    match p_value(&cs, 0) {
        Some((v, n)) => {
            if n == cs.len() {
                Some(v)
            } else {
                None
            }
        },
        None => None,
    }
}

} // verus!

verus! {

/// Appending a member extends the member shapes.
pub proof fn lemma_fvs_of_push(fields: Seq<(String, Json)>, f: (String, Json))
    ensures
        fvs_of(fields.push(f)) == fvs_of(fields) + seq![(f.0@, f.1.v())],
    decreases fields.len(),
{
    if fields.len() == 0 {
        assert(fields.push(f)[0] == f);
        assert(fields.push(f).skip(1) =~= Seq::<(String, Json)>::empty());
        assert(fvs_of(Seq::<(String, Json)>::empty()) =~= Seq::<(Seq<char>, JsonV)>::empty());
        assert(fvs_of(fields.push(f)) =~= fvs_of(fields) + seq![(f.0@, f.1.v())]);
    } else {
        lemma_fvs_of_push(fields.skip(1), f);
        assert(fields.push(f)[0] == fields[0]);
        assert(fields.push(f).skip(1) =~= fields.skip(1).push(f));
        assert(fvs_of(fields.push(f)) =~= seq![(fields[0].0@, fields[0].1.v())] + (fvs_of(
            fields.skip(1),
        ) + seq![(f.0@, f.1.v())]));
        assert(seq![(fields[0].0@, fields[0].1.v())] + (fvs_of(fields.skip(1)) + seq![
            (f.0@, f.1.v()),
        ]) =~= (seq![(fields[0].0@, fields[0].1.v())] + fvs_of(fields.skip(1))) + seq![
            (f.0@, f.1.v()),
        ]);
    }
}

} // verus!

verus! {

/// The canonical text of a JSON shape.
pub open spec fn enc_jv(v: JsonV) -> Seq<char>
    decreases v,
{
    match v {
        JsonV::VNull => seq!['n', 'u', 'l', 'l'],
        JsonV::VBool(b) => if b {
            seq!['t', 'r', 'u', 'e']
        } else {
            seq!['f', 'a', 'l', 's', 'e']
        },
        JsonV::VNum(n) => dec_u128(n as nat),
        JsonV::VStr(s) => seq!['"'] + esc_seq(s) + seq!['"'],
        JsonV::VArr(items) => seq!['['] + enc_vitems(items) + seq![']'],
        JsonV::VObj(fields) => seq!['{'] + enc_vfields(fields) + seq!['}'],
    }
}

/// Comma-joined encoded shapes.
pub open spec fn enc_vitems(items: Seq<JsonV>) -> Seq<char>
    decreases items,
{
    if items.len() == 0 {
        Seq::empty()
    } else if items.len() == 1 {
        enc_jv(items[0])
    } else {
        enc_jv(items[0]) + seq![','] + enc_vitems(items.skip(1))
    }
}

/// Comma-joined encoded members.
pub open spec fn enc_vfields(fields: Seq<(Seq<char>, JsonV)>) -> Seq<char>
    decreases fields,
{
    if fields.len() == 0 {
        Seq::empty()
    } else if fields.len() == 1 {
        enc_vfield(fields[0])
    } else {
        enc_vfield(fields[0]) + seq![','] + enc_vfields(fields.skip(1))
    }
}

/// One encoded member.
pub open spec fn enc_vfield(f: (Seq<char>, JsonV)) -> Seq<char>
    decreases f,
{
    seq!['"'] + esc_seq(f.0) + seq!['"', ':'] + enc_jv(f.1)
}

/// The value's encoding depends only on its shape.
pub proof fn lemma_enc_v(j: Json)
    ensures
        enc_json(j) == enc_jv(j.v()),
    decreases j,
{
    match j {
        Json::JArr(items) => {
            lemma_enc_items_v(items@);
        },
        Json::JObj(fields) => {
            lemma_enc_fields_v(fields@);
        },
        _ => {},
    }
}

proof fn lemma_enc_items_v(items: Seq<Json>)
    ensures
        enc_items(items) == enc_vitems(vs_of(items)),
    decreases items,
{
    if items.len() == 0 {
        assert(vs_of(items).len() == 0);
    } else {
        lemma_enc_v(items[0]);
        lemma_enc_items_v(items.skip(1));
        assert(vs_of(items)[0] == items[0].v());
        assert(vs_of(items).skip(1) =~= vs_of(items.skip(1)));
        if items.len() == 1 {
            assert(vs_of(items).len() == 1);
        }
    }
}

proof fn lemma_enc_fields_v(fields: Seq<(String, Json)>)
    ensures
        enc_fields(fields) == enc_vfields(fvs_of(fields)),
    decreases fields,
{
    if fields.len() == 0 {
        assert(fvs_of(fields).len() == 0);
    } else {
        lemma_enc_v(fields[0].1);
        lemma_enc_fields_v(fields.skip(1));
        assert(fvs_of(fields)[0] == (fields[0].0@, fields[0].1.v()));
        assert(enc_vfield((fields[0].0@, fields[0].1.v())) == enc_field(fields[0]));
        assert(fvs_of(fields).skip(1) =~= fvs_of(fields.skip(1)));
        if fields.len() == 1 {
            assert(fvs_of(fields).len() == 1);
        }
    }
}

} // verus!

verus! {

/// Parsing an escaped string body followed by its closing quote recovers
/// exactly the characters that were escaped, whatever follows the quote.
pub proof fn lemma_chars_roundtrip(s: Seq<char>, rest: Seq<char>, input: Seq<char>, i: int)
    requires
        0 <= i <= input.len(),
        input.skip(i) == esc_seq(s) + seq!['"'] + rest,
    ensures
        sp_chars(input, i) == Some((s, i + esc_seq(s).len() + 1)),
    decreases s.len(),
{
    let tail = input.skip(i);
    assert(tail.len() == input.len() - i);
    assert forall|m: int| 0 <= m < tail.len() implies #[trigger] tail[m] == input[i + m] by {
        assert(input.subrange(i, input.len() as int)[m] == input[i + m]);
    }
    if s.len() == 0 {
        assert(esc_seq(s).len() == 0);
        assert(tail[0] == '"');
        assert(input[i] == tail[0]);
        assert(sp_chars(input, i) == Some((Seq::<char>::empty(), i + 1)));
        assert(s =~= Seq::<char>::empty());
    } else {
        let c = s[0];
        let e = esc_char(c);
        assert(esc_seq(s) == e + esc_seq(s.skip(1)));
        let k = e.len() as int;
        assert(1 <= k <= 6);
        assert forall|m: int| 0 <= m < k implies input[i + m] == e[m] by {
            assert(tail[m] == (esc_seq(s) + seq!['"'] + rest)[m]);
            assert((e + esc_seq(s.skip(1)))[m] == e[m]);
        }
        assert(input.skip(i + k) =~= tail.skip(k)) by {
            assert forall|n: int| 0 <= n < input.len() - i - k implies input.skip(i + k)[n]
                == tail.skip(k)[n] by {
                assert(input.subrange(i + k, input.len() as int)[n] == input[i + k + n]);
                assert(tail.subrange(k, tail.len() as int)[n] == tail[k + n]);
            }
        }
        assert(tail.skip(k) =~= esc_seq(s.skip(1)) + seq!['"'] + rest);
        lemma_chars_roundtrip(s.skip(1), rest, input, i + k);
        assert(i + k <= input.len());

        if c == '"' {
            assert(input[i] == '\\' && input[i + 1] == '"');
            assert(sp_escape(input, i) == Some(('"', i + 2)));
        } else if c == '\\' {
            assert(input[i] == '\\' && input[i + 1] == '\\');
            assert(sp_escape(input, i) == Some(('\\', i + 2)));
        } else if c == '\n' {
            assert(input[i] == '\\' && input[i + 1] == 'n');
            assert(sp_escape(input, i) == Some(('\n', i + 2)));
        } else if c == '\r' {
            assert(input[i] == '\\' && input[i + 1] == 'r');
            assert(sp_escape(input, i) == Some(('\r', i + 2)));
        } else if c == '\t' {
            assert(input[i] == '\\' && input[i + 1] == 't');
            assert(sp_escape(input, i) == Some(('\t', i + 2)));
        } else if (c as u32) < 32 {
            let v = c as u32 as int;
            assert(input[i] == '\\' && input[i + 1] == 'u');
            assert(input[i + 2] == '0' && input[i + 3] == '0');
            assert(input[i + 4] == hex_digit(v / 16));
            assert(input[i + 5] == hex_digit(v % 16));
            assert(v == 16 * (v / 16) + v % 16);
            assert(0 <= v / 16 < 2);
            assert(0 <= v % 16 < 16);
            lemma_hex_digit_val(v / 16);
            lemma_hex_digit_val(v % 16);
            assert(hex_val('0') == Some(0int));
            let code = ((0 * 16 + 0) * 16 + (v / 16)) * 16 + (v % 16);
            assert(code == v);
            assert(code < 0xd800);
            vstd::utf8::char_u32_cast(c, code as u32);
            assert(sp_escape(input, i) == Some((c, i + 6)));
        } else {
            assert(e =~= seq![c]);
            assert(e[0] == c);
            assert(input[i + 0] == e[0]);
            assert(input[i] == c);
            assert(c != '"' && c != '\\');
        }
        assert(seq![c] + s.skip(1) =~= s);
    }
}

/// A rendered hex digit reads back as its value.
proof fn lemma_hex_digit_val(n: int)
    requires
        0 <= n < 16,
    ensures
        hex_val(hex_digit(n)) == Some(n),
{
    if n < 10 {
        assert(hex_digit(n) as u32 == 48 + n);
    } else {
        assert(hex_digit(n) as u32 == 87 + n);
    }
}

} // verus!

verus! {

/// A canonically encoded string parses back to the same string value:
/// the text round trip holds for every character sequence.
pub proof fn lemma_string_value_roundtrip(s: Seq<char>)
    ensures
        sp_value(seq!['"'] + esc_seq(s) + seq!['"'], 0) == Some(
            (JsonV::VStr(s), (seq!['"'] + esc_seq(s) + seq!['"']).len() as int),
        ),
        enc_jv(JsonV::VStr(s)) == seq!['"'] + esc_seq(s) + seq!['"'],
{
    let input = seq!['"'] + esc_seq(s) + seq!['"'];
    assert(input[0] == '"');
    assert(input.skip(1) =~= esc_seq(s) + seq!['"'] + Seq::<char>::empty());
    lemma_chars_roundtrip(s, Seq::empty(), input, 1);
    assert(enc_jv(JsonV::VStr(s)) =~= input);
}

} // verus!

verus! {

/// Left-to-right value of a digit string on top of an accumulator.
pub open spec fn digits_val(ds: Seq<char>, acc: int) -> int
    decreases ds.len(),
{
    if ds.len() == 0 {
        acc
    } else {
        digits_val(ds.skip(1), acc * 10 + (ds[0] as u32 - 48))
    }
}

/// Every character of a rendered number is a digit.
proof fn lemma_dec_all_digits(n: nat)
    ensures
        dec_u128(n).len() >= 1,
        forall|j: int| 0 <= j < dec_u128(n).len() ==> is_digit(#[trigger] dec_u128(n)[j]),
        forall|j: int|
            0 <= j < dec_u128(n).len() ==> 48 <= (#[trigger] dec_u128(n)[j]) as u32 <= 57,
    decreases n,
{
    if n < 10 {
        assert(dec_u128(n)[0] as u32 == 48 + n);
    } else {
        lemma_dec_all_digits(n / 10);
        assert(dec_u128(n) == dec_u128(n / 10).push(((48 + n % 10) as u8) as char));
        assert(dec_u128(n).last() as u32 == 48 + n % 10);
        assert(forall|j: int|
            0 <= j < dec_u128(n / 10).len() ==> dec_u128(n)[j] == dec_u128(n / 10)[j]);
    }
}

/// Appending one digit multiplies the value by ten and adds it.
proof fn lemma_digits_val_push(ds: Seq<char>, d: char, acc: int)
    ensures
        digits_val(ds.push(d), acc) == digits_val(ds, acc) * 10 + (d as u32 - 48),
    decreases ds.len(),
{
    if ds.len() == 0 {
        assert(ds.push(d)[0] == d);
        assert(ds.push(d).skip(1) =~= Seq::<char>::empty());
        assert(digits_val(Seq::<char>::empty(), acc * 10 + (d as u32 - 48)) == acc * 10 + (
        d as u32 - 48));
        assert(digits_val(ds, acc) == acc);
    } else {
        assert(ds.push(d)[0] == ds[0]);
        assert(ds.push(d).skip(1) =~= ds.skip(1).push(d));
        lemma_digits_val_push(ds.skip(1), d, acc * 10 + (ds[0] as u32 - 48));
    }
}

/// The rendered digits of `n` read back as `n`.
proof fn lemma_digits_val_of_dec(n: nat, acc: int)
    ensures
        digits_val(dec_u128(n), acc) == acc * pow10(dec_u128(n).len() as nat) + n,
    decreases n,
{
    if n < 10 {
        assert(dec_u128(n).len() == 1);
        assert(dec_u128(n)[0] as u32 == 48 + n);
        assert(dec_u128(n).skip(1) =~= Seq::<char>::empty());
        assert(digits_val(Seq::<char>::empty(), acc * 10 + n) == acc * 10 + n);
        assert(pow10(0) == 1);
        assert(pow10(1) == 10);
    } else {
        lemma_digits_val_of_dec(n / 10, acc);
        let d = ((48 + n % 10) as u8) as char;
        assert(d as u32 == 48 + n % 10);
        lemma_digits_val_push(dec_u128(n / 10), d, acc);
        let k = dec_u128(n / 10).len() as nat;
        assert(dec_u128(n).len() == k + 1);
        assert(pow10(k + 1) == 10 * pow10(k));
        assert(digits_val(dec_u128(n), acc) == (acc * pow10(k) + n / 10) * 10 + n % 10);
        assert((acc * pow10(k) + n / 10) * 10 + n % 10 == acc * (pow10(k) * 10) + ((n / 10) * 10
            + n % 10)) by (nonlinear_arith);
        assert((n / 10) * 10 + n % 10 == n);
    }
}

/// Powers of ten.
pub open spec fn pow10(k: nat) -> int
    decreases k,
{
    if k == 0 {
        1
    } else {
        10 * pow10((k - 1) as nat)
    }
}

/// The value on a larger accumulator is at least the accumulator.
proof fn lemma_digits_val_lower(ds: Seq<char>, acc: int)
    requires
        acc >= 0,
        forall|j: int| 0 <= j < ds.len() ==> 48 <= (#[trigger] ds[j]) as u32 <= 57,
    ensures
        digits_val(ds, acc) >= acc,
        digits_val(ds, acc) >= 0,
    decreases ds.len(),
{
    if ds.len() > 0 {
        assert(forall|j: int|
            0 <= j < ds.skip(1).len() ==> 48 <= (#[trigger] ds.skip(1)[j]) as u32 <= 57);
        lemma_digits_val_lower(ds.skip(1), acc * 10 + (ds[0] as u32 - 48));
    }
}

/// Parsing a rendered digit block on top of `acc` folds up its value and
/// stops exactly at its end.
proof fn lemma_parse_digits(ds: Seq<char>, rest: Seq<char>, input: Seq<char>, i: int, acc: u128)
    requires
        0 <= i <= input.len(),
        input.skip(i) == ds + rest,
        rest.len() > 0 ==> !is_digit(rest[0]),
        forall|j: int| 0 <= j < ds.len() ==> 48 <= (#[trigger] ds[j]) as u32 <= 57,
        digits_val(ds, acc as int) <= u128::MAX as int,
    ensures
        sp_digits(input, i, acc).0 as int == digits_val(ds, acc as int),
        sp_digits(input, i, acc).1 == i + ds.len(),
    decreases ds.len(),
{
    let tail = input.skip(i);
    assert(tail.len() == input.len() - i);
    assert forall|m: int| 0 <= m < tail.len() implies #[trigger] tail[m] == input[i + m] by {
        assert(input.subrange(i, input.len() as int)[m] == input[i + m]);
    }
    if ds.len() == 0 {
        if rest.len() > 0 {
            assert(input[i] == rest[0]);
        }
    } else {
        let d0 = ds[0];
        assert(tail[0] == (ds + rest)[0]);
        assert(input[i] == d0);
        assert(is_digit(d0));
        let dd = (d0 as u32 - 48) as int;
        let acc2 = acc as int * 10 + dd;
        assert(digits_val(ds, acc as int) == digits_val(ds.skip(1), acc2));
        assert(forall|j: int|
            0 <= j < ds.skip(1).len() ==> 48 <= (#[trigger] ds.skip(1)[j]) as u32 <= 57);
        lemma_digits_val_lower(ds.skip(1), acc2);
        assert(acc2 <= u128::MAX as int);
        // the overflow guard cannot fire on an in-range value
        assert(acc as int <= (u128::MAX as int - dd) / 10) by {
            assert(acc as int * 10 <= u128::MAX as int - dd);
            assert((acc as int * 10) / 10 <= (u128::MAX as int - dd) / 10) by (nonlinear_arith)
                requires
                    acc as int * 10 <= u128::MAX as int - dd,
            ;
        }
        assert(!(acc > (0xffff_ffff_ffff_ffff_ffff_ffff_ffff_ffff - (dd as u128)) / 10));
        assert(input.skip(i + 1) =~= ds.skip(1) + rest) by {
            assert forall|m: int| 0 <= m < input.len() - i - 1 implies input.skip(i + 1)[m]
                == (ds.skip(1) + rest)[m] by {
                assert(input.subrange(i + 1, input.len() as int)[m] == input[i + 1 + m]);
                assert(tail[m + 1] == (ds + rest)[m + 1]);
            }
        }
        lemma_parse_digits(ds.skip(1), rest, input, i + 1, (acc2) as u128);
    }
}

/// A canonically rendered number, followed by anything that is not a
/// digit, parses back to the same value.
pub proof fn lemma_num_roundtrip(n: u128, rest: Seq<char>, input: Seq<char>, i: int)
    requires
        0 <= i <= input.len(),
        input.skip(i) == dec_u128(n as nat) + rest,
        rest.len() > 0 ==> !is_digit(rest[0]),
    ensures
        sp_num(input, i) == Some((n, i + dec_u128(n as nat).len())),
    decreases n,
{
    lemma_dec_all_digits(n as nat);
    lemma_digits_val_of_dec(n as nat, 0);
    assert(digits_val(dec_u128(n as nat), 0) == n);
    lemma_parse_digits(dec_u128(n as nat), rest, input, i, 0);
    let tail = input.skip(i);
    assert forall|m: int| 0 <= m < tail.len() implies #[trigger] tail[m] == input[i + m] by {
        assert(input.subrange(i, input.len() as int)[m] == input[i + m]);
    }
    assert(tail[0] == (dec_u128(n as nat) + rest)[0]);
    assert(input[i] == dec_u128(n as nat)[0]);
    assert(is_digit(input[i]));
    let j = i + dec_u128(n as nat).len();
    if j < input.len() {
        assert(rest.len() > 0);
        assert(tail[j - i] == (dec_u128(n as nat) + rest)[j - i]);
        assert(input[j] == rest[0]);
    }
}

} // verus!

verus! {

/// Values whose canonical text never extends into what follows: only a
/// number could, when a digit comes right after it.
pub open spec fn delimits(v: JsonV, rest: Seq<char>) -> bool {
    v is VNum ==> (rest.len() == 0 || !is_digit(rest[0]))
}

/// Parsing a canonically encoded value recovers it exactly.
pub proof fn lemma_value_roundtrip(v: JsonV, rest: Seq<char>, input: Seq<char>, i: int)
    requires
        0 <= i <= input.len(),
        input.skip(i) == enc_jv(v) + rest,
        delimits(v, rest),
    ensures
        sp_value(input, i) == Some((v, i + enc_jv(v).len())),
    decreases v, 1int, 0int,
{
    let tail = input.skip(i);
    assert(tail.len() == input.len() - i);
    assert forall|m: int| 0 <= m < tail.len() implies #[trigger] tail[m] == input[i + m] by {
        assert(input.subrange(i, input.len() as int)[m] == input[i + m]);
    }
    let e = enc_jv(v);
    assert forall|m: int| 0 <= m < e.len() implies input[i + m] == e[m] by {
        assert(tail[m] == (e + rest)[m]);
    }
    match v {
        JsonV::VNull => {
            assert(input[i] == 'n' && input[i + 1] == 'u' && input[i + 2] == 'l' && input[i + 3]
                == 'l');
            assert(input.len() - i >= 4);
            assert(sp_value(input, i) == Some((v, i + enc_jv(v).len())));
        },
        JsonV::VBool(b) => {
            if b {
                assert(input[i] == 't' && input[i + 1] == 'r' && input[i + 2] == 'u' && input[i
                    + 3] == 'e');
            } else {
                assert(input[i] == 'f' && input[i + 1] == 'a' && input[i + 2] == 'l' && input[i
                    + 3] == 's' && input[i + 4] == 'e');
            }
        },
        JsonV::VNum(n) => {
            lemma_dec_all_digits(n as nat);
            lemma_num_roundtrip(n, rest, input, i);
            assert(input[i] == dec_u128(n as nat)[0]);
            assert(is_digit(input[i]));
            assert(input[i] != '"' && input[i] != '{' && input[i] != '[');
            assert(sp_value(input, i) == Some((v, i + enc_jv(v).len())));
        },
        JsonV::VStr(s) => {
            assert(e == seq!['"'] + esc_seq(s) + seq!['"']);
            assert(e[0] == (seq!['"'] + esc_seq(s) + seq!['"'])[0]);
            assert(input[i + 0] == e[0]);
            assert(input[i] == '"');
            assert(input.skip(i + 1) =~= esc_seq(s) + seq!['"'] + rest) by {
                assert forall|m: int| 0 <= m < input.len() - i - 1 implies input.skip(i + 1)[m]
                    == (esc_seq(s) + seq!['"'] + rest)[m] by {
                    assert(input.subrange(i + 1, input.len() as int)[m] == input[i + 1 + m]);
                    assert(tail[m + 1] == (e + rest)[m + 1]);
                    assert(e[m + 1] == (seq!['"'] + esc_seq(s) + seq!['"'])[m + 1]);
                }
            }
            lemma_chars_roundtrip(s, rest, input, i + 1);
            assert(sp_value(input, i) == Some((v, i + enc_jv(v).len())));
        },
        JsonV::VArr(items) => {
            assert(e == seq!['['] + enc_vitems(items) + seq![']']);
            assert(e[0] == (seq!['['] + enc_vitems(items) + seq![']'])[0]);
            assert(input[i + 0] == e[0]);
            assert(input[i] == '[');
            if items.len() == 0 {
                assert(e =~= seq!['[', ']']);
                assert(input[i + 1] == e[1]);
                assert(input[i + 1] == ']');
                assert(items =~= Seq::<JsonV>::empty());
                assert(v == JsonV::VArr(Seq::empty()));
            } else {
                assert(input.skip(i + 1) =~= enc_vitems(items) + seq![']'] + rest) by {
                    assert forall|m: int| 0 <= m < input.len() - i - 1 implies input.skip(
                        i + 1,
                    )[m] == (enc_vitems(items) + seq![']'] + rest)[m] by {
                        assert(input.subrange(i + 1, input.len() as int)[m] == input[i + 1 + m]);
                        assert(tail[m + 1] == (e + rest)[m + 1]);
                        assert(e[m + 1] == (seq!['['] + enc_vitems(items) + seq![']'])[m + 1]);
                    }
                }
                lemma_items_roundtrip(v, items, rest, input, i + 1);
                assert(enc_vitems(items).len() >= 1) by {
                    lemma_enc_item_nonempty(items[0]);
                    if items.len() == 1 {
                    } else {
                        assert(enc_vitems(items) == enc_jv(items[0]) + seq![','] + enc_vitems(
                            items.skip(1),
                        ));
                    }
                }
                assert(e[1] == (seq!['['] + enc_vitems(items) + seq![']'])[1]);
                assert(input[i + 1] == e[1]);
                assert(input[i + 1] == enc_vitems(items)[0]);
                if items.len() > 1 {
                    assert(enc_vitems(items)[0] == (enc_jv(items[0]) + seq![','] + enc_vitems(
                        items.skip(1),
                    ))[0]);
                }
                assert(enc_vitems(items)[0] == enc_jv(items[0])[0]);
                lemma_enc_item_nonempty(items[0]);
                assert(input[i + 1] != ']');
            }
            assert(sp_value(input, i) == Some((v, i + enc_jv(v).len())));
        },
        JsonV::VObj(fields) => {
            assert(e == seq!['{'] + enc_vfields(fields) + seq!['}']);
            assert(e[0] == (seq!['{'] + enc_vfields(fields) + seq!['}'])[0]);
            assert(input[i + 0] == e[0]);
            assert(input[i] == '{');
            if fields.len() == 0 {
                assert(e =~= seq!['{', '}']);
                assert(input[i + 1] == e[1]);
                assert(input[i + 1] == '}');
                assert(fields =~= Seq::<(Seq<char>, JsonV)>::empty());
                assert(v == JsonV::VObj(Seq::empty()));
            } else {
                assert(input.skip(i + 1) =~= enc_vfields(fields) + seq!['}'] + rest) by {
                    assert forall|m: int| 0 <= m < input.len() - i - 1 implies input.skip(
                        i + 1,
                    )[m] == (enc_vfields(fields) + seq!['}'] + rest)[m] by {
                        assert(input.subrange(i + 1, input.len() as int)[m] == input[i + 1 + m]);
                        assert(tail[m + 1] == (e + rest)[m + 1]);
                        assert(e[m + 1] == (seq!['{'] + enc_vfields(fields) + seq!['}'])[m + 1]);
                    }
                }
                lemma_fields_roundtrip(v, fields, rest, input, i + 1);
                assert(enc_vfields(fields).len() >= 1) by {
                    assert(enc_vfield(fields[0]) == seq!['"'] + esc_seq(fields[0].0) + seq![
                        '"',
                        ':',
                    ] + enc_jv(fields[0].1));
                    if fields.len() > 1 {
                        assert(enc_vfields(fields) == enc_vfield(fields[0]) + seq![',']
                            + enc_vfields(fields.skip(1)));
                    }
                }
                assert(e[1] == (seq!['{'] + enc_vfields(fields) + seq!['}'])[1]);
                assert(input[i + 1] == e[1]);
                assert(input[i + 1] == enc_vfields(fields)[0]);
                assert(enc_vfield(fields[0])[0] == (seq!['"'] + esc_seq(fields[0].0) + seq![
                    '"',
                    ':',
                ] + enc_jv(fields[0].1))[0]);
                if fields.len() > 1 {
                    assert(enc_vfields(fields)[0] == (enc_vfield(fields[0]) + seq![',']
                        + enc_vfields(fields.skip(1)))[0]);
                }
                assert(enc_vfields(fields)[0] == enc_vfield(fields[0])[0]);
                assert(enc_vfield(fields[0])[0] == '"');
                assert(input[i + 1] != '}');
            }
            assert(sp_value(input, i) == Some((v, i + enc_jv(v).len())));
        },
    }
}

/// An encoded item is never empty, and never starts with a separator or
/// a closing bracket.
proof fn lemma_enc_item_nonempty(v: JsonV)
    ensures
        enc_jv(v).len() >= 1,
        enc_jv(v)[0] == '"' || enc_jv(v)[0] == '{' || enc_jv(v)[0] == '[' || enc_jv(v)[0] == 't'
            || enc_jv(v)[0] == 'f' || enc_jv(v)[0] == 'n' || is_digit(enc_jv(v)[0]),
    decreases v,
{
    match v {
        JsonV::VNum(n) => {
            lemma_dec_all_digits(n as nat);
        },
        JsonV::VStr(s) => {
            assert(enc_jv(v)[0] == (seq!['"'] + esc_seq(s) + seq!['"'])[0]);
        },
        JsonV::VArr(items) => {
            assert(enc_jv(v)[0] == (seq!['['] + enc_vitems(items) + seq![']'])[0]);
        },
        JsonV::VObj(fields) => {
            assert(enc_jv(v)[0] == (seq!['{'] + enc_vfields(fields) + seq!['}'])[0]);
        },
        _ => {},
    }
}

/// Parsing the encoded members of a non-empty object, up to the closing
/// brace, recovers them exactly.
proof fn lemma_fields_roundtrip(
    parent: JsonV,
    fields: Seq<(Seq<char>, JsonV)>,
    rest: Seq<char>,
    input: Seq<char>,
    i: int,
)
    requires
        0 <= i <= input.len(),
        fields.len() >= 1,
        input.skip(i) == enc_vfields(fields) + seq!['}'] + rest,
        parent is VObj,
        fields.len() <= parent->VObj_0.len() && (forall|j: int|
            0 <= j < fields.len() ==> #[trigger] fields[j]
                == parent->VObj_0[parent->VObj_0.len() - fields.len() + j]),
    ensures
        sp_members(input, i) == Some((fields, i + enc_vfields(fields).len() + 1)),
    decreases parent, 0int, fields.len(),
{
    let tail = input.skip(i);
    assert forall|m: int| 0 <= m < tail.len() implies #[trigger] tail[m] == input[i + m] by {
        assert(input.subrange(i, input.len() as int)[m] == input[i + m]);
    }
    let f0 = fields[0];
    let key = f0.0;
    let val = f0.1;
    let ef0 = enc_vfield(f0);
    let efs = enc_vfields(fields);
    if fields.len() == 1 {
        assert(efs == ef0);
    } else {
        assert(efs == ef0 + seq![','] + enc_vfields(fields.skip(1)));
    }
    assert forall|m: int| 0 <= m < ef0.len() implies input[i + m] == ef0[m] by {
        assert(tail[m] == (efs + seq!['}'] + rest)[m]);
        if fields.len() > 1 {
            assert((ef0 + seq![','] + enc_vfields(fields.skip(1)))[m] == ef0[m]);
        }
    }
    // the member's key
    let key_enc_len = esc_seq(key).len() as int + 2;
    assert(ef0 == seq!['"'] + esc_seq(key) + seq!['"', ':'] + enc_jv(val));
    assert(ef0.len() == key_enc_len + 1 + enc_jv(val).len());
    assert(efs.len() >= ef0.len());
    assert(tail.len() == efs.len() + 1 + rest.len());
    assert(input.len() - i >= ef0.len() + 1);
    assert(ef0[0] == (seq!['"'] + esc_seq(key) + seq!['"', ':'] + enc_jv(val))[0]);
    assert(input[i + 0] == ef0[0]);
    assert(input[i] == ef0[0]);
    assert(ef0[0] == '"');
    assert(input.skip(i + 1) =~= esc_seq(key) + seq!['"'] + input.skip(i + key_enc_len)) by {
        assert forall|m: int| 0 <= m < input.len() - i - 1 implies #[trigger] input.skip(
            i + 1,
        )[m] == (esc_seq(key) + seq!['"'] + input.skip(i + key_enc_len))[m] by {
            assert(input.subrange(i + 1, input.len() as int)[m] == input[i + 1 + m]);
            if m < esc_seq(key).len() + 1 {
                assert(ef0[m + 1] == (seq!['"'] + esc_seq(key) + seq!['"', ':'] + enc_jv(val))[m
                    + 1]);
            } else {
                assert(input.subrange(i + key_enc_len, input.len() as int)[m - esc_seq(
                    key,
                ).len() - 1] == input[i + key_enc_len + m - esc_seq(key).len() - 1]);
            }
        }
    }
    lemma_chars_roundtrip(key, input.skip(i + key_enc_len), input, i + 1);
    let j = i + key_enc_len;
    assert(sp_string(input, i) == Some((key, j)));
    assert(j > i);
    // the colon
    assert(input[j] == ef0[key_enc_len]);
    assert(ef0[key_enc_len] == (seq!['"'] + esc_seq(key) + seq!['"', ':'] + enc_jv(val))[
        key_enc_len]);
    assert(input[j] == ':');
    assert(j < input.len());
    // the value
    let after_val = if fields.len() == 1 {
        seq!['}'] + rest
    } else {
        seq![','] + enc_vfields(fields.skip(1)) + seq!['}'] + rest
    };
    assert(input.skip(j + 1) =~= enc_jv(val) + after_val) by {
        assert forall|m: int| 0 <= m < input.len() - j - 1 implies input.skip(j + 1)[m] == (
        enc_jv(val) + after_val)[m] by {
            assert(input.subrange(j + 1, input.len() as int)[m] == input[j + 1 + m]);
            assert(tail[key_enc_len + 1 + m] == (efs + seq!['}'] + rest)[key_enc_len + 1 + m]);
            if m < enc_jv(val).len() {
                assert(ef0[key_enc_len + 1 + m] == (seq!['"'] + esc_seq(key) + seq!['"', ':']
                    + enc_jv(val))[key_enc_len + 1 + m]);
                if fields.len() > 1 {
                    assert((ef0 + seq![','] + enc_vfields(fields.skip(1)))[key_enc_len + 1 + m]
                        == ef0[key_enc_len + 1 + m]);
                }
            }
        }
    }
    assert(delimits(val, after_val)) by {
        if val is VNum {
            assert(after_val[0] == '}' || after_val[0] == ',');
        }
    }
    assert(decreases_to!(parent => parent->VObj_0));
    assert(fields[0] == parent->VObj_0[parent->VObj_0.len() - fields.len() as int]);
    assert(decreases_to!(parent->VObj_0 => fields[0]));
    assert(decreases_to!(fields[0] => fields[0].1));
    lemma_value_roundtrip(val, after_val, input, j + 1);
    let m = j + 1 + enc_jv(val).len();
    assert(sp_value(input, j + 1) == Some((val, m)));
    assert(m > j);
    assert(m < input.len());
    assert(input[m] == tail[m - i]);
    if fields.len() == 1 {
        assert(tail[m - i] == (efs + seq!['}'] + rest)[m - i]);
        assert(input[m] == '}');
        assert(seq![(key, val)] =~= fields);
    } else {
        assert(tail[m - i] == (efs + seq!['}'] + rest)[m - i]);
        assert((ef0 + seq![','] + enc_vfields(fields.skip(1)))[m - i] == ',');
        assert(input[m] == ',');
        assert(input.skip(m + 1) =~= enc_vfields(fields.skip(1)) + seq!['}'] + rest) by {
            assert forall|mm: int| 0 <= mm < input.len() - m - 1 implies input.skip(m + 1)[mm]
                == (enc_vfields(fields.skip(1)) + seq!['}'] + rest)[mm] by {
                assert(input.subrange(m + 1, input.len() as int)[mm] == input[m + 1 + mm]);
                assert(tail[m - i + 1 + mm] == (efs + seq!['}'] + rest)[m - i + 1 + mm]);
                if mm < enc_vfields(fields.skip(1)).len() {
                    assert((ef0 + seq![','] + enc_vfields(fields.skip(1)))[m - i + 1 + mm]
                        == enc_vfields(fields.skip(1))[mm]);
                }
            }
        }
        assert(forall|jj: int|
            0 <= jj < fields.skip(1).len() ==> #[trigger] fields.skip(1)[jj] == parent->VObj_0[
                parent->VObj_0.len() - fields.skip(1).len() + jj]);
        lemma_fields_roundtrip(parent, fields.skip(1), rest, input, m + 1);
        assert(seq![(key, val)] + fields.skip(1) =~= fields);
        assert(efs.len() == ef0.len() + 1 + enc_vfields(fields.skip(1)).len());
    }
}

/// Parsing the encoded items of a non-empty array, up to the closing
/// bracket, recovers them exactly.
proof fn lemma_items_roundtrip(
    parent: JsonV,
    items: Seq<JsonV>,
    rest: Seq<char>,
    input: Seq<char>,
    i: int,
)
    requires
        0 <= i <= input.len(),
        items.len() >= 1,
        input.skip(i) == enc_vitems(items) + seq![']'] + rest,
        parent is VArr,
        items.len() <= parent->VArr_0.len() && (forall|j: int|
            0 <= j < items.len() ==> #[trigger] items[j] == parent->VArr_0[parent->VArr_0.len()
                - items.len() + j]),
    ensures
        sp_elements(input, i) == Some((items, i + enc_vitems(items).len() + 1)),
    decreases parent, 0int, items.len(),
{
    let tail = input.skip(i);
    assert forall|m: int| 0 <= m < tail.len() implies #[trigger] tail[m] == input[i + m] by {
        assert(input.subrange(i, input.len() as int)[m] == input[i + m]);
    }
    let v0 = items[0];
    let e0 = enc_jv(v0);
    let eis = enc_vitems(items);
    if items.len() == 1 {
        assert(eis == e0);
    } else {
        assert(eis == e0 + seq![','] + enc_vitems(items.skip(1)));
    }
    let after_val = if items.len() == 1 {
        seq![']'] + rest
    } else {
        seq![','] + enc_vitems(items.skip(1)) + seq![']'] + rest
    };
    assert(tail.len() == eis.len() + 1 + rest.len());
    assert(eis.len() >= e0.len());
    assert(tail.len() == e0.len() + after_val.len());
    assert(input.skip(i) =~= enc_jv(v0) + after_val) by {
        assert forall|m: int| 0 <= m < input.len() - i implies input.skip(i)[m] == (enc_jv(v0)
            + after_val)[m] by {
            assert(tail[m] == (eis + seq![']'] + rest)[m]);
            if items.len() > 1 {
                let eis2 = enc_vitems(items.skip(1));
                if m < e0.len() {
                    assert((e0 + seq![','] + eis2)[m] == e0[m]);
                    assert((enc_jv(v0) + after_val)[m] == e0[m]);
                } else if m < eis.len() {
                    assert((e0 + seq![','] + eis2)[m] == (seq![','] + eis2)[m - e0.len()]);
                    assert((enc_jv(v0) + after_val)[m] == after_val[m - e0.len()]);
                    assert(after_val[m - e0.len()] == (seq![','] + eis2 + seq![']'] + rest)[m
                        - e0.len()]);
                } else {
                    assert((enc_jv(v0) + after_val)[m] == after_val[m - e0.len()]);
                    assert(after_val[m - e0.len()] == (seq![','] + eis2 + seq![']'] + rest)[m
                        - e0.len()]);
                }
            } else {
                if m < e0.len() {
                    assert((enc_jv(v0) + after_val)[m] == e0[m]);
                } else {
                    assert((enc_jv(v0) + after_val)[m] == after_val[m - e0.len()]);
                    assert(after_val[m - e0.len()] == (seq![']'] + rest)[m - e0.len()]);
                }
            }
        }
    }
    assert(delimits(v0, after_val)) by {
        if v0 is VNum {
            assert(after_val[0] == ']' || after_val[0] == ',');
        }
    }
    assert(decreases_to!(parent => parent->VArr_0));
    assert(items[0] == parent->VArr_0[parent->VArr_0.len() - items.len() as int]);
    assert(decreases_to!(parent->VArr_0 => items[0]));
    lemma_value_roundtrip(v0, after_val, input, i);
    let m = i + e0.len();
    assert(sp_value(input, i) == Some((v0, m)));
    assert(m > i);
    assert(m < input.len());
    assert(input[m] == tail[m - i]);
    assert(tail[m - i] == (eis + seq![']'] + rest)[m - i]);
    if items.len() == 1 {
        assert(input[m] == ']');
        assert(seq![v0] =~= items);
    } else {
        assert((e0 + seq![','] + enc_vitems(items.skip(1)))[m - i] == ',');
        assert(input[m] == ',');
        assert(input.skip(m + 1) =~= enc_vitems(items.skip(1)) + seq![']'] + rest) by {
            assert forall|mm: int| 0 <= mm < input.len() - m - 1 implies input.skip(m + 1)[mm]
                == (enc_vitems(items.skip(1)) + seq![']'] + rest)[mm] by {
                assert(input.subrange(m + 1, input.len() as int)[mm] == input[m + 1 + mm]);
                assert(tail[m - i + 1 + mm] == (eis + seq![']'] + rest)[m - i + 1 + mm]);
                if mm < enc_vitems(items.skip(1)).len() {
                    assert((e0 + seq![','] + enc_vitems(items.skip(1)))[m - i + 1 + mm]
                        == enc_vitems(items.skip(1))[mm]);
                }
            }
        }
        assert(forall|jj: int|
            0 <= jj < items.skip(1).len() ==> #[trigger] items.skip(1)[jj] == parent->VArr_0[
                parent->VArr_0.len() - items.skip(1).len() + jj]);
        lemma_items_roundtrip(parent, items.skip(1), rest, input, m + 1);
        assert(seq![v0] + items.skip(1) =~= items);
        assert(eis.len() == e0.len() + 1 + enc_vitems(items.skip(1)).len());
    }
}

} // verus!

verus! {

/// The canonical encoding of any JSON shape parses back to exactly that
/// shape, consuming the whole text: the codec's text round trip.
pub proof fn lemma_parse_encode_roundtrip(v: JsonV)
    ensures
        sp_value(enc_jv(v), 0) == Some((v, enc_jv(v).len() as int)),
{
    let input = enc_jv(v);
    assert(input.skip(0) =~= input + Seq::<char>::empty());
    lemma_value_roundtrip(v, Seq::empty(), input, 0);
}

} // verus!
