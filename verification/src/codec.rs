//! The wire codec: the canonical JSON text of requests and responses, an
//! encoder that produces exactly that text, and a decoder for requests.
use crate::json::{ChessResponse, Request, Response, Value, Version};
use crate::game::GameState;
use crate::pieces::Color;
use vstd::prelude::*;
use vstd::string::*;

verus! {

/// How one character is written inside a JSON string: a quote, a
/// backslash and a line break are escaped, everything else stands as it
/// is.
pub open spec fn json_escape(c: char) -> Seq<char> {
    if c == '"' {
        seq!['\\', '"']
    } else if c == '\\' {
        seq!['\\', '\\']
    } else if c == '\n' {
        seq!['\\', 'n']
    } else {
        seq![c]
    }
}

/// The characters of a string as they are written inside its quotes.
pub open spec fn json_escaped(s: Seq<char>) -> Seq<char>
    decreases s.len(),
{
    if s.len() == 0 {
        Seq::empty()
    } else {
        json_escaped(s.drop_last()) + json_escape(s.last())
    }
}

/// A JSON string: the escaped characters between quotes.
pub open spec fn json_string(s: Seq<char>) -> Seq<char> {
    seq!['"'] + json_escaped(s) + seq!['"']
}

/// The decimal text of a non-negative number.
pub open spec fn dec_chars(n: int) -> Seq<char>
    decreases n,
{
    if n < 10 {
        seq![((48 + n) as u8) as char]
    } else {
        dec_chars(n / 10) + seq![((48 + n % 10) as u8) as char]
    }
}

/// The decimal text of a number, with a sign when it is negative.
pub open spec fn int_chars(n: int) -> Seq<char> {
    if n < 0 {
        seq!['-'] + dec_chars(-n)
    } else {
        dec_chars(n)
    }
}

/// The JSON text of a scalar value.
pub open spec fn value_text(v: Value) -> Seq<char> {
    match v {
        Value::Null => "null"@,
        Value::Bool(b) => if b {
            "true"@
        } else {
            "false"@
        },
        Value::UInt(n) => dec_chars(n as int),
        Value::Str(s) => json_string(s@),
    }
}

/// The JSON text of a parameter list, comma separated.
pub open spec fn values_text(ps: Seq<Value>) -> Seq<char>
    decreases ps.len(),
{
    if ps.len() == 0 {
        Seq::empty()
    } else if ps.len() == 1 {
        value_text(ps[0])
    } else {
        values_text(ps.drop_last()) + seq![','] + value_text(ps.last())
    }
}

/// The canonical wire text of a request.
pub open spec fn spec_encode_request(r: Request) -> Seq<char> {
    "{\"jsonrpc\":\"2.0\",\"method\":"@ + json_string(r.method@) + ",\"params\":["@ + values_text(
        r.params@,
    ) + "],\"id\":"@ + dec_chars(r.id as int) + "}"@
}

/// The JSON text of a player color.
pub open spec fn color_text(c: Color) -> Seq<char> {
    if c == Color::White {
        "\"White\""@
    } else {
        "\"Black\""@
    }
}

/// The JSON text of a game lifecycle state.
pub open spec fn state_text(s: GameState) -> Seq<char> {
    match s {
        GameState::Ready => "\"Ready\""@,
        GameState::OnGoing => "\"OnGoing\""@,
        GameState::Paused => "\"Paused\""@,
        GameState::Ended => "\"Ended\""@,
    }
}

/// The JSON text of a state snapshot; a snapshot that names no player
/// color omits that field.
pub open spec fn chess_text(c: ChessResponse) -> Seq<char> {
    "{"@ + (match c.player_color {
        None => Seq::<char>::empty(),
        Some(col) => "\"player_color\":"@ + color_text(col) + ","@,
    }) + "\"turn\":"@ + dec_chars(c.turn as int) + ",\"board\":"@ + json_string(c.board@)
        + ",\"game_state\":"@ + state_text(c.game_state) + "}"@
}

/// The canonical wire text of a response.
pub open spec fn spec_encode_response(r: Response) -> Seq<char> {
    match r {
        Response::Success { result, id, .. } => "{\"jsonrpc\":\"2.0\",\"result\":"@
            + chess_text(result) + ",\"id\":"@ + dec_chars(id as int) + "}"@,
        Response::Error { error, id, .. } => "{\"jsonrpc\":\"2.0\",\"error\":{\"code\":"@
            + int_chars(error.code as int) + ",\"message\":"@ + json_string(error.message@)
            + ",\"data\":"@ + (match error.data {
            None => "null"@,
            Some(v) => value_text(v),
        }) + "},\"id\":"@ + dec_chars(id as int) + "}"@,
    }
}

/// Appends the characters of a string slice.
fn push_str_chars(out: &mut Vec<char>, s: &str)
    ensures
        final(out)@ == old(out)@ + s@,
{
    let n = s.unicode_len();
    let mut i: usize = 0;
    while i < n
        invariant
            n == s@.len(),
            0 <= i <= n,
            out@ == old(out)@ + s@.take(i as int),
        decreases n - i,
    {
        out.push(s.get_char(i));
        proof {
            assert(out@ =~= old(out)@ + s@.take(i + 1));
        }
        i = i + 1;
    }
    proof {
        assert(out@ =~= old(out)@ + s@);
    }
}

/// Appends the decimal text of a number.
fn push_dec(out: &mut Vec<char>, n: u64)
    ensures
        final(out)@ == old(out)@ + dec_chars(n as int),
    decreases n,
{
    if n < 10 {
        out.push(((48 + n) as u8) as char);
        proof {
            assert(out@ =~= old(out)@ + dec_chars(n as int));
        }
    } else {
        push_dec(out, n / 10);
        out.push(((48 + n % 10) as u8) as char);
        proof {
            assert(out@ =~= old(out)@ + dec_chars(n as int));
        }
    }
}

/// Appends the decimal text of a signed number.
fn push_int(out: &mut Vec<char>, n: i32)
    ensures
        final(out)@ == old(out)@ + int_chars(n as int),
{
    if n >= 0 {
        push_dec(out, n as u64);
    } else {
        out.push('-');
        let magnitude = (-(n as i64)) as u64;
        push_dec(out, magnitude);
        proof {
            assert(out@ =~= old(out)@ + int_chars(n as int));
        }
    }
}

/// Appends the escaped characters of a string, without the quotes.
fn push_escaped(out: &mut Vec<char>, s: &str)
    ensures
        final(out)@ == old(out)@ + json_escaped(s@),
{
    let n = s.unicode_len();
    let mut i: usize = 0;
    while i < n
        invariant
            n == s@.len(),
            0 <= i <= n,
            out@ == old(out)@ + json_escaped(s@.take(i as int)),
        decreases n - i,
    {
        let c = s.get_char(i);
        if c == '"' {
            out.push('\\');
            out.push('"');
        } else if c == '\\' {
            out.push('\\');
            out.push('\\');
        } else if c == '\n' {
            out.push('\\');
            out.push('n');
        } else {
            out.push(c);
        }
        proof {
            assert(s@.take(i + 1).drop_last() =~= s@.take(i as int));
            assert(s@.take(i + 1).last() == s@[i as int]);
            assert(out@ =~= old(out)@ + json_escaped(s@.take(i + 1)));
        }
        i = i + 1;
    }
    proof {
        assert(s@.take(n as int) =~= s@);
    }
}

/// Appends a JSON string: the escaped characters between quotes.
fn push_json_string(out: &mut Vec<char>, s: &str)
    ensures
        final(out)@ == old(out)@ + json_string(s@),
{
    out.push('"');
    push_escaped(out, s);
    out.push('"');
    proof {
        assert(out@ =~= old(out)@ + json_string(s@));
    }
}

/// Appends the JSON text of a scalar value.
fn push_value(out: &mut Vec<char>, v: &Value)
    ensures
        final(out)@ == old(out)@ + value_text(*v),
{
    match v {
        Value::Null => push_str_chars(out, "null"),
        Value::Bool(b) => {
            if *b {
                push_str_chars(out, "true")
            } else {
                push_str_chars(out, "false")
            }
        },
        Value::UInt(n) => push_dec(out, *n),
        Value::Str(s) => push_json_string(out, s.as_str()),
    }
}

/// Appends the comma-separated JSON texts of the parameters.
fn push_values(out: &mut Vec<char>, ps: &Vec<Value>)
    ensures
        final(out)@ == old(out)@ + values_text(ps@),
{
    let mut i: usize = 0;
    while i < ps.len()
        invariant
            0 <= i <= ps@.len(),
            out@ == old(out)@ + values_text(ps@.take(i as int)),
        decreases ps@.len() - i,
    {
        if i > 0 {
            out.push(',');
        }
        push_value(out, &ps[i]);
        proof {
            assert(ps@.take(i + 1).drop_last() =~= ps@.take(i as int));
            assert(ps@.take(i + 1).last() == ps@[i as int]);
            if i == 0 {
                assert(ps@.take(1)[0] == ps@[0]);
            }
            assert(out@ =~= old(out)@ + values_text(ps@.take(i + 1)));
        }
        i = i + 1;
    }
    proof {
        assert(ps@.take(ps@.len() as int) =~= ps@);
    }
}

/// Encodes a request as its canonical wire text.
pub fn encode_request(r: &Request) -> (out: String)
    ensures
        out@ == spec_encode_request(*r),
{
    let mut text: Vec<char> = Vec::new();
    push_str_chars(&mut text, "{\"jsonrpc\":\"2.0\",\"method\":");
    push_json_string(&mut text, r.method.as_str());
    push_str_chars(&mut text, ",\"params\":[");
    push_values(&mut text, &r.params);
    push_str_chars(&mut text, "],\"id\":");
    push_dec(&mut text, r.id as u64);
    push_str_chars(&mut text, "}");
    proof {
        assert(text@ =~= spec_encode_request(*r));
    }
    crate::text::chars_to_string(text)
}

/// Appends the JSON text of a state snapshot.
#[verifier::rlimit(60)]
fn push_chess(out: &mut Vec<char>, c: &ChessResponse)
    ensures
        final(out)@ == old(out)@ + chess_text(*c),
{
    push_str_chars(out, "{");
    match &c.player_color {
        Some(col) => {
            push_str_chars(out, "\"player_color\":");
            match col {
                Color::White => push_str_chars(out, "\"White\""),
                Color::Black => push_str_chars(out, "\"Black\""),
            }
            push_str_chars(out, ",");
        },
        None => {},
    }
    push_str_chars(out, "\"turn\":");
    push_dec(out, c.turn as u64);
    push_str_chars(out, ",\"board\":");
    push_json_string(out, c.board.as_str());
    push_str_chars(out, ",\"game_state\":");
    match c.game_state {
        GameState::Ready => push_str_chars(out, "\"Ready\""),
        GameState::OnGoing => push_str_chars(out, "\"OnGoing\""),
        GameState::Paused => push_str_chars(out, "\"Paused\""),
        GameState::Ended => push_str_chars(out, "\"Ended\""),
    }
    push_str_chars(out, "}");
    proof {
        assert(out@ =~= old(out)@ + chess_text(*c));
    }
}

/// Encodes a response as its canonical wire text.
pub fn encode_response(r: &Response) -> (out: String)
    ensures
        out@ == spec_encode_response(*r),
{
    let mut text: Vec<char> = Vec::new();
    match r {
        Response::Success { result, id, .. } => {
            push_str_chars(&mut text, "{\"jsonrpc\":\"2.0\",\"result\":");
            push_chess(&mut text, result);
            push_str_chars(&mut text, ",\"id\":");
            push_dec(&mut text, *id as u64);
            push_str_chars(&mut text, "}");
        },
        Response::Error { error, id, .. } => {
            push_str_chars(&mut text, "{\"jsonrpc\":\"2.0\",\"error\":{\"code\":");
            push_int(&mut text, error.code);
            push_str_chars(&mut text, ",\"message\":");
            push_json_string(&mut text, error.message.as_str());
            push_str_chars(&mut text, ",\"data\":");
            match &error.data {
                None => push_str_chars(&mut text, "null"),
                Some(v) => push_value(&mut text, v),
            }
            push_str_chars(&mut text, "},\"id\":");
            push_dec(&mut text, *id as u64);
            push_str_chars(&mut text, "}");
        },
    }
    proof {
        assert(text@ =~= spec_encode_response(*r));
    }
    crate::text::chars_to_string(text)
}

/// A message that does not parse as a request.
#[derive(Debug, PartialEq, Eq, Copy, Clone, Structural)]
pub enum DecodeError {
    Malformed,
}

/// A decimal digit character.
pub open spec fn is_digit(c: char) -> bool {
    48 <= c as int <= 57
}

/// The numeric value of a digit sequence.
pub open spec fn digits_val(s: Seq<char>) -> int
    decreases s.len(),
{
    if s.len() == 0 {
        0
    } else {
        digits_val(s.drop_last()) * 10 + (s.last() as int - 48)
    }
}

proof fn lemma_digits_pos(s: Seq<char>)
    requires
        s.len() >= 1,
        forall|i: int| 0 <= i < s.len() ==> is_digit(#[trigger] s[i]),
        s[0] != '0',
    ensures
        digits_val(s) >= 1,
    decreases s.len(),
{
    if s.len() == 1 {
        assert(s.last() == s[0]);
        assert(digits_val(s.drop_last()) == 0);
        assert(s[0] as int != 48) by {
            if s[0] as int == 48 {
                assert(s[0] == ((48 as u8) as char));
                assert(s[0] == '0');
            }
        }
    } else {
        assert(forall|i: int| 0 <= i < s.len() - 1 ==> s.drop_last()[i] == s[i]);
        lemma_digits_pos(s.drop_last());
    }
}

/// A digit sequence without a leading zero is exactly the canonical
/// decimal text of its value.
proof fn lemma_digits_canonical(s: Seq<char>)
    requires
        s.len() >= 1,
        forall|i: int| 0 <= i < s.len() ==> is_digit(#[trigger] s[i]),
        s.len() > 1 ==> s[0] != '0',
    ensures
        dec_chars(digits_val(s)) == s,
        0 <= digits_val(s),
    decreases s.len(),
{
    if s.len() == 1 {
        let c = s[0];
        assert(s.last() == c);
        assert(digits_val(s.drop_last()) == 0);
        assert(digits_val(s) == c as int - 48);
        assert(((48 + (c as int - 48)) as u8) as char == c);
        assert(dec_chars(digits_val(s)) =~= s);
    } else {
        assert(forall|i: int| 0 <= i < s.len() - 1 ==> s.drop_last()[i] == s[i]);
        lemma_digits_canonical(s.drop_last());
        lemma_digits_pos(s.drop_last());
        let v = digits_val(s);
        let d = s.last() as int - 48;
        assert(0 <= d <= 9);
        assert(v == digits_val(s.drop_last()) * 10 + d);
        assert(v >= 10);
        assert(v / 10 == digits_val(s.drop_last()));
        assert(v % 10 == d);
        assert(((48 + d) as u8) as char == s.last());
        assert(dec_chars(v) =~= s);
    }
}

/// A character the codec can carry inside a JSON string: the printable
/// range and the line break.
pub open spec fn encodable_char(c: char) -> bool {
    let code = c as int;
    if c == '\n' {
        true
    } else {
        32 <= code < 127
    }
}

/// A character sequence the codec can carry inside a JSON string.
pub open spec fn text_encodable(s: Seq<char>) -> bool {
    forall|i: int| 0 <= i < s.len() ==> encodable_char(#[trigger] s[i])
}

/// A scalar value the codec can carry.
pub open spec fn value_encodable(v: Value) -> bool {
    match v {
        Value::Str(s) => text_encodable(s@),
        _ => true,
    }
}

/// A request the codec can carry: every string in it is encodable.
pub open spec fn request_encodable(r: Request) -> bool {
    &&& text_encodable(r.method@)
    &&& forall|i: int| 0 <= i < r.params@.len() ==> value_encodable(#[trigger] r.params@[i])
}

/// The canonical decimal text of a number: at least one digit, all
/// digits, no leading zero, and its value is the number itself.
proof fn lemma_dec_chars_props(n: int)
    requires
        n >= 0,
    ensures
        dec_chars(n).len() >= 1,
        forall|i: int| 0 <= i < dec_chars(n).len() ==> is_digit(#[trigger] dec_chars(n)[i]),
        n >= 10 ==> dec_chars(n)[0] != '0',
        n < 10 ==> dec_chars(n) == seq![((48 + n) as u8) as char],
        digits_val(dec_chars(n)) == n,
    decreases n,
{
    if n < 10 {
        assert(dec_chars(n).drop_last() =~= Seq::<char>::empty());
        assert(digits_val(Seq::<char>::empty()) == 0);
        assert(((48 + n) as u8) as char as int == 48 + n);
    } else {
        lemma_dec_chars_props(n / 10);
        let d = n % 10;
        assert(dec_chars(n).drop_last() =~= dec_chars(n / 10));
        assert(dec_chars(n).last() == ((48 + d) as u8) as char);
        assert(((48 + d) as u8) as char as int == 48 + d);
        assert(dec_chars(n)[0] == dec_chars(n / 10)[0]);
        if n / 10 < 10 {
            assert(dec_chars(n / 10) == seq![((48 + n / 10) as u8) as char]);
            assert(n / 10 >= 1);
            assert(((48 + n / 10) as u8) as char as int == 48 + n / 10);
            if dec_chars(n)[0] == '0' {
                assert(dec_chars(n)[0] as int == 48);
            }
        }
        assert(digits_val(dec_chars(n)) == digits_val(dec_chars(n / 10)) * 10 + d);
    }
}

proof fn lemma_digits_val_nonneg(s: Seq<char>)
    requires
        forall|i: int| 0 <= i < s.len() ==> is_digit(#[trigger] s[i]),
    ensures
        digits_val(s) >= 0,
    decreases s.len(),
{
    if s.len() > 0 {
        assert(forall|i: int| 0 <= i < s.len() - 1 ==> s.drop_last()[i] == s[i]);
        lemma_digits_val_nonneg(s.drop_last());
    }
}

/// The value of a digit string bounds the value of each of its prefixes.
proof fn lemma_digits_val_prefix(s: Seq<char>, k: int)
    requires
        forall|i: int| 0 <= i < s.len() ==> is_digit(#[trigger] s[i]),
        0 <= k <= s.len(),
    ensures
        digits_val(s.take(k)) <= digits_val(s),
        digits_val(s.take(k)) >= 0,
    decreases s.len() - k,
{
    assert(forall|i: int| 0 <= i < k ==> s.take(k)[i] == s[i]);
    lemma_digits_val_nonneg(s.take(k));
    if k == s.len() {
        assert(s.take(k) =~= s);
    } else {
        assert(s.take(k + 1).drop_last() =~= s.take(k));
        assert(s.take(k + 1).last() == s[k]);
        assert(digits_val(s.take(k + 1)) == digits_val(s.take(k)) * 10 + (s[k] as int - 48));
        assert(digits_val(s.take(k)) <= digits_val(s.take(k + 1)));
        lemma_digits_val_prefix(s, k + 1);
    }
}

/// Checks for a decimal digit.
fn is_digit_char(c: char) -> (r: bool)
    ensures
        r == is_digit(c),
{
    let u = c as u32;
    48 <= u && u <= 57
}

/// Matches the given literal at `pos`; on success the cursor stands just
/// past it.
fn expect_lit(text: &str, pos: usize, lit: &str) -> (r: Option<usize>)
    requires
        pos <= text@.len(),
    ensures
        match r {
            Some(p) => pos < p <= text@.len() && p == pos + lit@.len() && text@.subrange(
                pos as int,
                p as int,
            ) == lit@ && lit@.len() > 0,
            None => lit@.len() == 0 || pos + lit@.len() > text@.len() || text@.subrange(
                pos as int,
                pos + lit@.len(),
            ) != lit@,
        },
{
    let n = text.unicode_len();
    let m = lit.unicode_len();
    if m == 0 || m > n - pos {
        return None;
    }
    let mut j: usize = 0;
    while j < m
        invariant
            n == text@.len(),
            m == lit@.len(),
            pos + m <= n,
            0 <= j <= m,
            forall|k: int| 0 <= k < j ==> text@[pos + k] == lit@[k],
        decreases m - j,
    {
        if text.get_char(pos + j) != lit.get_char(j) {
            proof {
                assert(text@.subrange(pos as int, pos + lit@.len()) != lit@) by {
                    if text@.subrange(pos as int, pos + lit@.len()) == lit@ {
                        assert(text@.subrange(pos as int, pos + lit@.len())[j as int]
                            == text@[pos + j]);
                    }
                }
            }
            return None;
        }
        j = j + 1;
    }
    proof {
        assert(text@.subrange(pos as int, (pos + m) as int) =~= lit@);
    }
    Some(pos + m)
}

/// Escaping distributes over concatenation.
proof fn lemma_escaped_concat(a: Seq<char>, b: Seq<char>)
    ensures
        json_escaped(a + b) == json_escaped(a) + json_escaped(b),
    decreases b.len(),
{
    if b.len() == 0 {
        assert(a + b =~= a);
        assert(json_escaped(a) + json_escaped(b) =~= json_escaped(a));
    } else {
        assert((a + b).drop_last() =~= a + b.drop_last());
        assert((a + b).last() == b.last());
        lemma_escaped_concat(a, b.drop_last());
        assert(json_escaped(a) + json_escaped(b) =~= json_escaped(a) + json_escaped(b.drop_last())
            + json_escape(b.last()));
        assert(json_escaped(a + b) =~= json_escaped(a) + json_escaped(b.drop_last()) + json_escape(
            b.last(),
        ));
    }
}

/// The escaped text of a string splits at any character.
proof fn lemma_escaped_split(s: Seq<char>, k: int)
    requires
        0 <= k < s.len(),
    ensures
        json_escaped(s.take(k + 1)) == json_escaped(s.take(k)) + json_escape(s[k]),
        json_escaped(s) == json_escaped(s.take(k)) + json_escape(s[k]) + json_escaped(
            s.skip(k + 1),
        ),
{
    let single = seq![s[k]];
    assert(single.drop_last() =~= Seq::<char>::empty());
    assert(json_escaped(Seq::<char>::empty()) == Seq::<char>::empty());
    assert(single.last() == s[k]);
    assert(json_escaped(single) =~= json_escape(s[k]));
    assert(s.take(k + 1) =~= s.take(k) + single);
    lemma_escaped_concat(s.take(k), single);
    assert(s =~= s.take(k + 1) + s.skip(k + 1));
    lemma_escaped_concat(s.take(k + 1), s.skip(k + 1));
    assert(json_escaped(s) =~= json_escaped(s.take(k)) + json_escape(s[k]) + json_escaped(
        s.skip(k + 1),
    ));
}

/// Parses a JSON string at `pos`: quotes around plain characters and the
/// three supported escapes. Every encodable string's JSON text, followed
/// by anything, is accepted and read in full.
fn parse_string(text: &str, pos: usize) -> (r: Option<(String, usize)>)
    requires
        pos <= text@.len(),
    ensures
        match r {
            Some((s, p)) => pos < p <= text@.len() && text@.subrange(pos as int, p as int)
                == json_string(s@),
            None => true,
        },
        forall|s2: Seq<char>, rest: Seq<char>|
            #![trigger json_string(s2).add(rest)]
            (text_encodable(s2) && text@.subrange(pos as int, text@.len() as int) == json_string(
                s2,
            ).add(rest)) ==> (r matches Some(x) && x.0@ == s2 && x.1 == pos + json_string(
                s2,
            ).len()),
{
    let n = text.unicode_len();
    if pos >= n || text.get_char(pos) != '"' {
        proof {
            assert forall|s2: Seq<char>, rest: Seq<char>|
                text_encodable(s2) && text@.subrange(pos as int, text@.len() as int)
                    == json_string(s2).add(rest) implies false by {
                let tail = text@.subrange(pos as int, text@.len() as int);
                assert(tail.len() == json_string(s2).len() + rest.len());
                assert(json_string(s2).len() >= 2);
                assert(pos < n);
                assert(tail[0] == json_string(s2).add(rest)[0]);
                assert(json_string(s2)[0] == '"');
                assert(tail[0] == text@[pos as int]);
            }
        }
        return None;
    }
    let mut chars: Vec<char> = Vec::new();
    let mut i = pos + 1;
    proof {
        assert forall|s2: Seq<char>, rest: Seq<char>|
            text_encodable(s2) && text@.subrange(pos as int, text@.len() as int) == json_string(
                s2,
            ).add(rest) implies chars@.len() <= s2.len() && chars@ == s2.take(chars@.len() as int)
            && i == pos + 1 + json_escaped(s2.take(chars@.len() as int)).len() by {
            assert(s2.take(0) =~= Seq::<char>::empty());
            assert(json_escaped(Seq::<char>::empty()) =~= Seq::<char>::empty());
            assert(chars@ =~= s2.take(0));
        }
    }
    while i < n
        invariant
            n == text@.len(),
            pos < n,
            text@[pos as int] == '"',
            pos + 1 <= i <= n,
            text@.subrange(pos + 1, i as int) == json_escaped(chars@),
            forall|s2: Seq<char>, rest: Seq<char>|
                #![trigger json_string(s2).add(rest)]
                (text_encodable(s2) && text@.subrange(pos as int, text@.len() as int)
                    == json_string(s2).add(rest)) ==> (chars@.len() <= s2.len() && chars@
                    == s2.take(chars@.len() as int) && i == pos + 1 + json_escaped(
                    s2.take(chars@.len() as int),
                ).len()),
        decreases n - i,
    {
        let ghost prev_chars = chars@;
        let ghost prev_i = i as int;
        let c = text.get_char(i);
        // Everything the hypothetical continuations pin down at this cursor.
        proof {
            assert forall|s2: Seq<char>, rest: Seq<char>|
                text_encodable(s2) && text@.subrange(pos as int, text@.len() as int)
                    == json_string(s2).add(rest) implies (prev_chars.len() == s2.len() ==> c
                == '"') && (prev_chars.len() < s2.len() ==> c == json_escape(
                s2[prev_chars.len() as int],
            )[0] && encodable_char(s2[prev_chars.len() as int])) by {
                let k = prev_chars.len() as int;
                let tail = text@.subrange(pos as int, text@.len() as int);
                let js = json_string(s2);
                assert(c == text@[i as int]);
                assert(tail[i - pos] == js.add(rest)[i - pos]);
                if k == s2.len() {
                    assert(s2.take(k) =~= s2);
                    assert(i - pos == 1 + json_escaped(s2).len());
                    assert(js[i - pos] == '"');
                } else {
                    lemma_escaped_split(s2, k);
                    assert(js =~= seq!['"'] + (json_escaped(s2.take(k)) + json_escape(s2[k])
                        + json_escaped(s2.skip(k + 1))) + seq!['"']);
                    assert(js[i - pos] == json_escape(s2[k])[0]);
                    assert(i - pos < js.len());
                }
            }
        }
        if c == '"' {
            proof {
                assert(text@.subrange(pos as int, i + 1) =~= seq!['"'] + json_escaped(chars@)
                    + seq!['"']);
                assert forall|s2: Seq<char>, rest: Seq<char>|
                    text_encodable(s2) && text@.subrange(pos as int, text@.len() as int)
                        == json_string(s2).add(rest) implies prev_chars == s2 && i + 1 == pos
                    + json_string(s2).len() by {
                    let k = prev_chars.len() as int;
                    if k < s2.len() {
                        assert(c == json_escape(s2[k])[0]);
                        assert(encodable_char(s2[k]));
                        assert(c != '"');
                    }
                    assert(s2.take(s2.len() as int) =~= s2);
                }
            }
            let s = crate::text::chars_to_string(chars);
            return Some((s, i + 1));
        }
        if c == '\\' {
            if i + 1 >= n {
                proof {
                    assert forall|s2: Seq<char>, rest: Seq<char>|
                        text_encodable(s2) && text@.subrange(pos as int, text@.len() as int)
                            == json_string(s2).add(rest) implies false by {
                        let k = prev_chars.len() as int;
                        assert(k < s2.len());
                        assert(json_escape(s2[k])[0] == '\\');
                        assert(encodable_char(s2[k]));
                        assert(s2[k] == '"' || s2[k] == '\\' || s2[k] == '\n');
                        lemma_escaped_split(s2, k);
                        assert(json_escape(s2[k]).len() == 2);
                        assert(i - pos + 1 < json_string(s2).len());
                        let tail = text@.subrange(pos as int, text@.len() as int);
                        assert(tail.len() == json_string(s2).len() + rest.len());
                        assert(i + 1 < n);
                    }
                }
                return None;
            }
            let e = text.get_char(i + 1);
            proof {
                assert forall|s2: Seq<char>, rest: Seq<char>|
                    text_encodable(s2) && text@.subrange(pos as int, text@.len() as int)
                        == json_string(s2).add(rest) implies prev_chars.len() < s2.len() && e
                    == json_escape(s2[prev_chars.len() as int])[1] && (s2[prev_chars.len() as int]
                    == '"' || s2[prev_chars.len() as int] == '\\' || s2[prev_chars.len() as int]
                    == '\n') by {
                    let k = prev_chars.len() as int;
                    assert(k < s2.len());
                    assert(json_escape(s2[k])[0] == '\\');
                    assert(encodable_char(s2[k]));
                    assert(s2[k] == '"' || s2[k] == '\\' || s2[k] == '\n');
                    lemma_escaped_split(s2, k);
                    let js = json_string(s2);
                    let tail = text@.subrange(pos as int, text@.len() as int);
                    assert(js =~= seq!['"'] + (json_escaped(s2.take(k)) + json_escape(s2[k])
                        + json_escaped(s2.skip(k + 1))) + seq!['"']);
                    assert(i + 1 - pos < js.len());
                    assert(tail[i + 1 - pos] == js.add(rest)[i + 1 - pos]);
                    assert(e == text@[i + 1]);
                    assert(js[i + 1 - pos] == json_escape(s2[k])[1]);
                }
            }
            let decoded: char = if e == '"' {
                '"'
            } else if e == '\\' {
                '\\'
            } else if e == 'n' {
                '\n'
            } else {
                proof {
                    assert forall|s2: Seq<char>, rest: Seq<char>|
                        text_encodable(s2) && text@.subrange(pos as int, text@.len() as int)
                            == json_string(s2).add(rest) implies false by {
                        let k = prev_chars.len() as int;
                        assert(e == json_escape(s2[k])[1]);
                    }
                }
                return None;
            };
            let ghost before = chars@;
            chars.push(decoded);
            proof {
                assert(chars@.drop_last() =~= before);
                assert(json_escaped(chars@) == json_escaped(before) + json_escape(decoded));
                assert(json_escape(decoded) =~= seq![c, e]);
                assert(text@.subrange(pos + 1, i + 2) =~= text@.subrange(pos + 1, i as int)
                    + seq![text@[i as int], text@[i + 1]]);
                assert(text@.subrange(pos + 1, i + 2) =~= json_escaped(chars@));
                assert forall|s2: Seq<char>, rest: Seq<char>|
                    text_encodable(s2) && text@.subrange(pos as int, text@.len() as int)
                        == json_string(s2).add(rest) implies chars@.len() <= s2.len() && chars@
                    == s2.take(chars@.len() as int) && i + 2 == pos + 1 + json_escaped(
                    s2.take(chars@.len() as int),
                ).len() by {
                    let k = prev_chars.len() as int;
                    assert(decoded == s2[k]) by {
                        assert(e == json_escape(s2[k])[1]);
                        assert(s2[k] == '"' || s2[k] == '\\' || s2[k] == '\n');
                    }
                    assert(chars@ =~= s2.take(k + 1));
                    lemma_escaped_split(s2, k);
                    assert(json_escape(s2[k]).len() == 2);
                }
            }
            i = i + 2;
        } else {
            let u = c as u32;
            if u < 32 || u >= 127 {
                proof {
                    assert forall|s2: Seq<char>, rest: Seq<char>|
                        text_encodable(s2) && text@.subrange(pos as int, text@.len() as int)
                            == json_string(s2).add(rest) implies false by {
                        let k = prev_chars.len() as int;
                        assert(k < s2.len());
                        assert(c == json_escape(s2[k])[0]);
                        assert(encodable_char(s2[k]));
                        if s2[k] == '"' || s2[k] == '\\' || s2[k] == '\n' {
                            assert(c == '\\');
                            assert(c as int == 92);
                        } else {
                            assert(c == s2[k]);
                        }
                    }
                }
                return None;
            }
            let ghost before = chars@;
            chars.push(c);
            proof {
                assert(chars@.drop_last() =~= before);
                assert(json_escaped(chars@) == json_escaped(before) + json_escape(c));
                assert(c != '\n') by {
                    if c == '\n' {
                        assert(c as u32 == 10);
                    }
                }
                assert(json_escape(c) =~= seq![c]);
                assert(text@.subrange(pos + 1, i + 1) =~= text@.subrange(pos + 1, i as int)
                    + seq![text@[i as int]]);
                assert(text@.subrange(pos + 1, i + 1) =~= json_escaped(chars@));
                assert forall|s2: Seq<char>, rest: Seq<char>|
                    text_encodable(s2) && text@.subrange(pos as int, text@.len() as int)
                        == json_string(s2).add(rest) implies chars@.len() <= s2.len() && chars@
                    == s2.take(chars@.len() as int) && i + 1 == pos + 1 + json_escaped(
                    s2.take(chars@.len() as int),
                ).len() by {
                    let k = prev_chars.len() as int;
                    assert(k < s2.len());
                    assert(c == s2[k]) by {
                        assert(c == json_escape(s2[k])[0]);
                        if s2[k] == '"' || s2[k] == '\\' || s2[k] == '\n' {
                            assert(c == '\\');
                        }
                    }
                    assert(chars@ =~= s2.take(k + 1));
                    lemma_escaped_split(s2, k);
                    assert(json_escape(s2[k]).len() == 1);
                }
            }
            i = i + 1;
        }
    }
    proof {
        assert forall|s2: Seq<char>, rest: Seq<char>|
            text_encodable(s2) && text@.subrange(pos as int, text@.len() as int) == json_string(
                s2,
            ).add(rest) implies false by {
            let k = chars@.len() as int;
            assert(json_escaped(s2.take(k)).len() <= json_escaped(s2).len()) by {
                assert(s2 =~= s2.take(k) + s2.skip(k));
                lemma_escaped_concat(s2.take(k), s2.skip(k));
            }
            assert(i <= pos + 1 + json_escaped(s2).len());
            let tail = text@.subrange(pos as int, text@.len() as int);
            assert(tail.len() == json_string(s2).len() + rest.len());
            assert(pos + json_string(s2).len() <= n);
        }
    }
    None
}

/// Parses a canonical decimal number at `pos`.
fn parse_u64(text: &str, pos: usize) -> (r: Option<(u64, usize)>)
    requires
        pos <= text@.len(),
    ensures
        match r {
            Some((v, p)) => pos < p <= text@.len() && text@.subrange(pos as int, p as int)
                == dec_chars(v as int),
            None => true,
        },
        forall|v2: u64, rest: Seq<char>|
            #![trigger dec_chars(v2 as int).add(rest)]
            (text@.subrange(pos as int, text@.len() as int) == dec_chars(v2 as int) + rest && (
            rest.len() == 0 || !is_digit(rest[0]))) ==> (r matches Some(x) && x.0 == v2 && x.1
                == pos + dec_chars(v2 as int).len()),
{
    let n = text.unicode_len();
    if pos >= n {
        proof {
            assert forall|v2: u64, rest: Seq<char>|
                text@.subrange(pos as int, text@.len() as int) == dec_chars(v2 as int).add(rest)
                    && (rest.len() == 0 || !is_digit(rest[0])) implies false by {
                lemma_dec_chars_props(v2 as int);
                assert(text@.subrange(pos as int, text@.len() as int).len() == 0);
                assert(dec_chars(v2 as int).add(rest).len() >= 1);
            }
        }
        return None;
    }
    let c0 = text.get_char(pos);
    if !is_digit_char(c0) {
        proof {
            assert forall|v2: u64, rest: Seq<char>|
                text@.subrange(pos as int, text@.len() as int) == dec_chars(v2 as int).add(rest)
                    && (rest.len() == 0 || !is_digit(rest[0])) implies false by {
                lemma_dec_chars_props(v2 as int);
                let tail = text@.subrange(pos as int, text@.len() as int);
                assert(tail[0] == dec_chars(v2 as int)[0]);
                assert(tail[0] == text@[pos as int]);
            }
        }
        return None;
    }
    let d0 = ((c0 as u32) - 48) as u64;
    if d0 == 0 {
        proof {
            assert(((48 + 0) as u8) as char == c0);
            assert(text@.subrange(pos as int, pos + 1) =~= dec_chars(0));
            assert forall|v2: u64, rest: Seq<char>|
                text@.subrange(pos as int, text@.len() as int) == dec_chars(v2 as int).add(rest)
                    && (rest.len() == 0 || !is_digit(rest[0])) implies v2 == 0 && dec_chars(
                v2 as int,
            ).len() == 1 by {
                lemma_dec_chars_props(v2 as int);
                let tail = text@.subrange(pos as int, text@.len() as int);
                assert(tail[0] == dec_chars(v2 as int)[0]);
                assert(tail[0] == text@[pos as int]);
                assert(text@[pos as int] as int == 48);
                if v2 >= 10 {
                    assert(dec_chars(v2 as int)[0] == ((48 as u8) as char));
                    assert(dec_chars(v2 as int)[0] == '0');
                } else {
                    assert(dec_chars(v2 as int)[0] as int == 48 + v2);
                }
            }
        }
        return Some((0, pos + 1));
    }
    let mut v: u64 = d0;
    let mut i = pos + 1;
    proof {
        let first = text@.subrange(pos as int, pos + 1);
        assert(first.drop_last() =~= Seq::<char>::empty());
        assert(digits_val(Seq::<char>::empty()) == 0);
        assert(first.last() == c0);
        assert(digits_val(first) == v as int);
        assert(c0 != '0') by {
            if c0 == '0' {
                assert(c0 as u32 == 48);
            }
        }
    }
    while i < n && is_digit_char(text.get_char(i))
        invariant
            n == text@.len(),
            pos < i <= n,
            forall|k: int| pos <= k < i ==> is_digit(#[trigger] text@[k]),
            text@[pos as int] != '0',
            digits_val(text@.subrange(pos as int, i as int)) == v as int,
        decreases n - i,
    {
        let d = ((text.get_char(i) as u32) - 48) as u64;
        if v > (u64::MAX - d) / 10 {
            proof {
                assert forall|v2: u64, rest: Seq<char>|
                    text@.subrange(pos as int, text@.len() as int) == dec_chars(v2 as int).add(
                        rest,
                    ) && (rest.len() == 0 || !is_digit(rest[0])) implies false by {
                    lemma_dec_chars_props(v2 as int);
                    let dec = dec_chars(v2 as int);
                    let ll = dec.len() as int;
                    let tail = text@.subrange(pos as int, text@.len() as int);
                    assert(tail.len() == ll + rest.len());
                    assert(pos + ll <= text@.len());
                    assert(text@.subrange(pos as int, pos + ll) =~= dec) by {
                        assert(forall|k: int| 0 <= k < ll ==> tail[k] == #[trigger] dec.add(rest)[k]);
                        assert(forall|k: int|
                            0 <= k < ll ==> #[trigger] text@.subrange(pos as int, pos + ll)[k]
                                == text@[pos + k]);
                    }
                    assert(i + 1 <= pos + ll) by {
                        if i + 1 > pos + ll {
                            assert(rest.len() > 0);
                            assert(rest[0] == tail[ll]);
                            assert(rest[0] == text@[pos + ll]);
                        }
                    }
                    assert(text@.subrange(pos as int, i + 1) =~= dec.take(i + 1 - pos));
                    lemma_digits_val_prefix(dec, i + 1 - pos);
                    assert(text@.subrange(pos as int, i + 1).drop_last() =~= text@.subrange(
                        pos as int,
                        i as int,
                    ));
                    assert(digits_val(text@.subrange(pos as int, i + 1)) == (v as int) * 10 + (
                    text@[i as int] as int - 48));
                    assert((v as int) * 10 + (d as int) > u64::MAX) by (nonlinear_arith)
                        requires
                            v > (u64::MAX - d) / 10,
                            d <= 9,
                    {
                    }
                }
            }
            return None;
        }
        proof {
            assert(v * 10 + d <= u64::MAX) by (nonlinear_arith)
                requires
                    v <= (u64::MAX - d) / 10,
                    d <= 9,
            {
            }
        }
        let next = v * 10 + d;
        proof {
            let sub2 = text@.subrange(pos as int, i + 1);
            assert(sub2.drop_last() =~= text@.subrange(pos as int, i as int));
            assert(sub2.last() == text@[i as int]);
            assert(digits_val(sub2) == next as int);
        }
        v = next;
        i = i + 1;
    }
    proof {
        lemma_digits_canonical(text@.subrange(pos as int, i as int));
        assert forall|v2: u64, rest: Seq<char>|
            text@.subrange(pos as int, text@.len() as int) == dec_chars(v2 as int).add(rest) && (
            rest.len() == 0 || !is_digit(rest[0])) implies v == v2 && i == pos + dec_chars(
            v2 as int,
        ).len() by {
            lemma_dec_chars_props(v2 as int);
            let dec = dec_chars(v2 as int);
            let ll = dec.len() as int;
            let tail = text@.subrange(pos as int, text@.len() as int);
            assert(tail.len() == ll + rest.len());
            assert(pos + ll <= text@.len());
            assert(text@.subrange(pos as int, pos + ll) =~= dec) by {
                assert(forall|k: int| 0 <= k < ll ==> tail[k] == #[trigger] dec.add(rest)[k]);
                assert(forall|k: int|
                    0 <= k < ll ==> #[trigger] text@.subrange(pos as int, pos + ll)[k] == text@[pos
                        + k]);
            }
            assert(i <= pos + ll) by {
                if i > pos + ll {
                    assert(rest.len() > 0);
                    assert(rest[0] == tail[ll]);
                    assert(rest[0] == text@[pos + ll]);
                }
            }
            assert(i >= pos + ll) by {
                if i < pos + ll {
                    assert(text@[i as int] == dec[i - pos]);
                    assert(is_digit(text@[i as int]));
                }
            }
            assert(text@.subrange(pos as int, i as int) == dec);
            assert(digits_val(dec) == v2);
        }
    }
    Some((v, i))
}

/// Parses one JSON scalar value at `pos`. Every encodable value's JSON
/// text is accepted and read in full, provided a number is not followed
/// by a further digit.
fn parse_value(text: &str, pos: usize) -> (r: Option<(Value, usize)>)
    requires
        pos <= text@.len(),
    ensures
        match r {
            Some((v, p)) => pos < p <= text@.len() && text@.subrange(pos as int, p as int)
                == value_text(v),
            None => true,
        },
        forall|v2: Value, rest: Seq<char>|
            #![trigger value_text(v2).add(rest)]
            (value_encodable(v2) && text@.subrange(pos as int, text@.len() as int) == value_text(
                v2,
            ).add(rest) && ((v2 matches Value::UInt(_)) ==> (rest.len() == 0 || !is_digit(
                rest[0],
            )))) ==> (r matches Some(x) && x.1 == pos + value_text(v2).len()),
{
    proof {
        reveal_strlit("null");
        reveal_strlit("true");
        reveal_strlit("false");
    }
    let n = text.unicode_len();
    if pos >= n {
        proof {
            assert forall|v2: Value, rest: Seq<char>|
                value_encodable(v2) && text@.subrange(pos as int, text@.len() as int) == value_text(
                    v2,
                ).add(rest) implies false by {
                let tail = text@.subrange(pos as int, text@.len() as int);
                assert(tail.len() == value_text(v2).len() + rest.len());
                match v2 {
                    Value::UInt(u) => {
                        lemma_dec_chars_props(u as int);
                    },
                    _ => {},
                }
                assert(value_text(v2).len() >= 1);
            }
        }
        return None;
    }
    let c = text.get_char(pos);
    proof {
        assert forall|v2: Value, rest: Seq<char>|
            value_encodable(v2) && text@.subrange(pos as int, text@.len() as int) == value_text(
                v2,
            ).add(rest) implies c == value_text(v2)[0] && value_text(v2).len() >= 1 by {
            let tail = text@.subrange(pos as int, text@.len() as int);
            assert(tail.len() == value_text(v2).len() + rest.len());
            match v2 {
                Value::UInt(u) => {
                    lemma_dec_chars_props(u as int);
                },
                _ => {},
            }
            assert(value_text(v2).len() >= 1);
            assert(tail[0] == value_text(v2).add(rest)[0]);
            assert(c == text@[pos as int]);
        }
    }
    if c == '"' {
        match parse_string(text, pos) {
            Some((s, p)) => {
                proof {
                    assert forall|v2: Value, rest: Seq<char>|
                        value_encodable(v2) && text@.subrange(pos as int, text@.len() as int)
                            == value_text(v2).add(rest) implies p == pos + value_text(
                        v2,
                    ).len() by {
                        let tail = text@.subrange(pos as int, text@.len() as int);
                        match v2 {
                            Value::UInt(u) => {
                                lemma_dec_chars_props(u as int);
                            },
                            _ => {},
                        }
                        assert(value_text(v2).len() >= 1);
                        assert(tail.len() == value_text(v2).len() + rest.len());
                        assert(tail[0] == value_text(v2).add(rest)[0]);
                        assert(c == text@[pos as int]);
                        assert(c == value_text(v2)[0]);
                        match v2 {
                            Value::Str(s2) => {
                                assert(value_text(v2) == json_string(s2@));
                                assert(json_string(s2@).add(rest) == value_text(v2).add(rest));
                            },
                            Value::UInt(u) => {
                                assert(is_digit(value_text(v2)[0]));
                            },
                            _ => {},
                        }
                    }
                }
                Some((Value::Str(s), p))
            },
            None => {
                proof {
                    assert forall|v2: Value, rest: Seq<char>|
                        value_encodable(v2) && text@.subrange(pos as int, text@.len() as int)
                            == value_text(v2).add(rest) implies false by {
                        match v2 {
                            Value::Str(s2) => {
                                assert(value_text(v2) == json_string(s2@));
                                assert(json_string(s2@).add(rest) == value_text(v2).add(rest));
                            },
                            Value::UInt(u) => {
                                lemma_dec_chars_props(u as int);
                                assert(is_digit(value_text(v2)[0]));
                            },
                            _ => {},
                        }
                    }
                }
                None
            },
        }
    } else if c == 'n' {
        match expect_lit(text, pos, "null") {
            Some(p) => {
                proof {
                    assert forall|v2: Value, rest: Seq<char>|
                        value_encodable(v2) && text@.subrange(pos as int, text@.len() as int)
                            == value_text(v2).add(rest) implies p == pos + value_text(
                        v2,
                    ).len() by {
                        let tail = text@.subrange(pos as int, text@.len() as int);
                        match v2 {
                            Value::UInt(u) => {
                                lemma_dec_chars_props(u as int);
                            },
                            _ => {},
                        }
                        assert(value_text(v2).len() >= 1);
                        assert(tail.len() == value_text(v2).len() + rest.len());
                        assert(tail[0] == value_text(v2).add(rest)[0]);
                        assert(c == text@[pos as int]);
                        assert(c == value_text(v2)[0]);
                        match v2 {
                            Value::UInt(u) => {
                                assert(is_digit(value_text(v2)[0]));
                            },
                            _ => {},
                        }
                    }
                }
                Some((Value::Null, p))
            },
            None => {
                proof {
                    assert forall|v2: Value, rest: Seq<char>|
                        value_encodable(v2) && text@.subrange(pos as int, text@.len() as int)
                            == value_text(v2).add(rest) implies false by {
                        match v2 {
                            Value::Null => {
                                let tail = text@.subrange(pos as int, text@.len() as int);
                                assert(tail.len() == value_text(v2).len() + rest.len());
                                assert(text@.subrange(pos as int, pos + "null"@.len()) =~= "null"@)
                                    by {
                                    assert(forall|j: int|
                                        0 <= j < "null"@.len() ==> tail[j] == #[trigger] "null"@.add(
                                            rest,
                                        )[j]);
                                }
                            },
                            Value::UInt(u) => {
                                lemma_dec_chars_props(u as int);
                                assert(is_digit(value_text(v2)[0]));
                            },
                            _ => {},
                        }
                    }
                }
                None
            },
        }
    } else if c == 't' {
        match expect_lit(text, pos, "true") {
            Some(p) => {
                proof {
                    assert forall|v2: Value, rest: Seq<char>|
                        value_encodable(v2) && text@.subrange(pos as int, text@.len() as int)
                            == value_text(v2).add(rest) implies p == pos + value_text(
                        v2,
                    ).len() by {
                        let tail = text@.subrange(pos as int, text@.len() as int);
                        match v2 {
                            Value::UInt(u) => {
                                lemma_dec_chars_props(u as int);
                            },
                            _ => {},
                        }
                        assert(value_text(v2).len() >= 1);
                        assert(tail.len() == value_text(v2).len() + rest.len());
                        assert(tail[0] == value_text(v2).add(rest)[0]);
                        assert(c == text@[pos as int]);
                        assert(c == value_text(v2)[0]);
                        match v2 {
                            Value::UInt(u) => {
                                assert(is_digit(value_text(v2)[0]));
                            },
                            _ => {},
                        }
                    }
                }
                Some((Value::Bool(true), p))
            },
            None => {
                proof {
                    assert forall|v2: Value, rest: Seq<char>|
                        value_encodable(v2) && text@.subrange(pos as int, text@.len() as int)
                            == value_text(v2).add(rest) implies false by {
                        match v2 {
                            Value::Bool(b) => {
                                assert(b);
                                let tail = text@.subrange(pos as int, text@.len() as int);
                                assert(tail.len() == value_text(v2).len() + rest.len());
                                assert(text@.subrange(pos as int, pos + "true"@.len()) =~= "true"@)
                                    by {
                                    assert(forall|j: int|
                                        0 <= j < "true"@.len() ==> tail[j] == #[trigger] "true"@.add(
                                            rest,
                                        )[j]);
                                }
                            },
                            Value::UInt(u) => {
                                lemma_dec_chars_props(u as int);
                                assert(is_digit(value_text(v2)[0]));
                            },
                            _ => {},
                        }
                    }
                }
                None
            },
        }
    } else if c == 'f' {
        match expect_lit(text, pos, "false") {
            Some(p) => {
                proof {
                    assert forall|v2: Value, rest: Seq<char>|
                        value_encodable(v2) && text@.subrange(pos as int, text@.len() as int)
                            == value_text(v2).add(rest) implies p == pos + value_text(
                        v2,
                    ).len() by {
                        let tail = text@.subrange(pos as int, text@.len() as int);
                        match v2 {
                            Value::UInt(u) => {
                                lemma_dec_chars_props(u as int);
                            },
                            _ => {},
                        }
                        assert(value_text(v2).len() >= 1);
                        assert(tail.len() == value_text(v2).len() + rest.len());
                        assert(tail[0] == value_text(v2).add(rest)[0]);
                        assert(c == text@[pos as int]);
                        assert(c == value_text(v2)[0]);
                        match v2 {
                            Value::UInt(u) => {
                                assert(is_digit(value_text(v2)[0]));
                            },
                            _ => {},
                        }
                    }
                }
                Some((Value::Bool(false), p))
            },
            None => {
                proof {
                    assert forall|v2: Value, rest: Seq<char>|
                        value_encodable(v2) && text@.subrange(pos as int, text@.len() as int)
                            == value_text(v2).add(rest) implies false by {
                        match v2 {
                            Value::Bool(b) => {
                                assert(!b);
                                let tail = text@.subrange(pos as int, text@.len() as int);
                                assert(tail.len() == value_text(v2).len() + rest.len());
                                assert(text@.subrange(pos as int, pos + "false"@.len())
                                    =~= "false"@) by {
                                    assert(forall|j: int|
                                        0 <= j < "false"@.len() ==> tail[j]
                                            == #[trigger] "false"@.add(rest)[j]);
                                }
                            },
                            Value::UInt(u) => {
                                lemma_dec_chars_props(u as int);
                                assert(is_digit(value_text(v2)[0]));
                            },
                            _ => {},
                        }
                    }
                }
                None
            },
        }
    } else if is_digit_char(c) {
        match parse_u64(text, pos) {
            Some((v, p)) => {
                proof {
                    assert forall|v2: Value, rest: Seq<char>|
                        value_encodable(v2) && text@.subrange(pos as int, text@.len() as int)
                            == value_text(v2).add(rest) && ((v2 matches Value::UInt(_)) ==> (
                        rest.len() == 0 || !is_digit(rest[0]))) implies p == pos + value_text(
                        v2,
                    ).len() by {
                        let tail = text@.subrange(pos as int, text@.len() as int);
                        match v2 {
                            Value::UInt(u) => {
                                lemma_dec_chars_props(u as int);
                            },
                            _ => {},
                        }
                        assert(value_text(v2).len() >= 1);
                        assert(tail.len() == value_text(v2).len() + rest.len());
                        assert(tail[0] == value_text(v2).add(rest)[0]);
                        assert(c == text@[pos as int]);
                        assert(c == value_text(v2)[0]);
                        match v2 {
                            Value::UInt(u) => {
                                assert(value_text(v2) == dec_chars(u as int));
                                assert(dec_chars(u as int).add(rest) == value_text(v2).add(rest));
                            },
                            Value::Null => {
                                assert(value_text(v2)[0] == 'n');
                                assert(!is_digit('n'));
                            },
                            Value::Bool(b) => {
                                if b {
                                    assert(value_text(v2)[0] == 't');
                                    assert(!is_digit('t'));
                                } else {
                                    assert(value_text(v2)[0] == 'f');
                                    assert(!is_digit('f'));
                                }
                            },
                            Value::Str(s2) => {
                                assert(value_text(v2)[0] == '"');
                                assert(!is_digit('"'));
                            },
                        }
                    }
                }
                Some((Value::UInt(v), p))
            },
            None => {
                proof {
                    assert forall|v2: Value, rest: Seq<char>|
                        value_encodable(v2) && text@.subrange(pos as int, text@.len() as int)
                            == value_text(v2).add(rest) && ((v2 matches Value::UInt(_)) ==> (
                        rest.len() == 0 || !is_digit(rest[0]))) implies false by {
                        match v2 {
                            Value::UInt(u) => {
                                assert(value_text(v2) == dec_chars(u as int));
                                assert(dec_chars(u as int).add(rest) == value_text(v2).add(rest));
                            },
                            _ => {},
                        }
                    }
                }
                None
            },
        }
    } else {
        proof {
            assert forall|v2: Value, rest: Seq<char>|
                value_encodable(v2) && text@.subrange(pos as int, text@.len() as int) == value_text(
                    v2,
                ).add(rest) implies false by {
                match v2 {
                    Value::UInt(u) => {
                        lemma_dec_chars_props(u as int);
                        assert(is_digit(value_text(v2)[0]));
                    },
                    _ => {},
                }
            }
        }
        None
    }
}

/// The parameters' JSON text from element `j` on, with the comma that
/// precedes every element but the first.
pub open spec fn values_rest(ps: Seq<Value>, j: int) -> Seq<char>
    decreases ps.len() - j,
{
    if j < 0 || j >= ps.len() {
        Seq::empty()
    } else {
        (if j == 0 {
            Seq::<char>::empty()
        } else {
            seq![',']
        }) + value_text(ps[j]) + values_rest(ps, j + 1)
    }
}

/// One more parameter's text extends the prefix by a separator and the
/// element's text.
proof fn lemma_values_take_step(ps: Seq<Value>, k: int)
    requires
        0 <= k < ps.len(),
    ensures
        values_text(ps.take(k + 1)) == values_text(ps.take(k)) + (if k == 0 {
            Seq::<char>::empty()
        } else {
            seq![',']
        }) + value_text(ps[k]),
{
    if k == 0 {
        assert(ps.take(1)[0] == ps[0]);
        assert(values_text(ps.take(0)) =~= Seq::<char>::empty());
        assert(values_text(ps.take(1)) =~= values_text(ps.take(0)) + Seq::<char>::empty()
            + value_text(ps[0]));
    } else {
        assert(ps.take(k + 1).drop_last() =~= ps.take(k));
        assert(ps.take(k + 1).last() == ps[k]);
        assert(values_text(ps.take(k + 1)) =~= values_text(ps.take(k)) + seq![','] + value_text(
            ps[k],
        ));
    }
}

/// The parameters' text splits at any element boundary.
proof fn lemma_values_rest_split(ps: Seq<Value>, j: int)
    requires
        0 <= j <= ps.len(),
    ensures
        values_text(ps) == values_text(ps.take(j)) + values_rest(ps, j),
    decreases ps.len() - j,
{
    if j == ps.len() {
        assert(ps.take(j) =~= ps);
        assert(values_text(ps) =~= values_text(ps.take(j)) + values_rest(ps, j));
    } else {
        lemma_values_rest_split(ps, j + 1);
        lemma_values_take_step(ps, j);
        assert(values_text(ps) =~= values_text(ps.take(j)) + values_rest(ps, j));
    }
}

/// The first character of a value's text is never a separator or the
/// closing bracket.
proof fn lemma_value_first_char(v: Value)
    requires
        value_encodable(v),
    ensures
        value_text(v).len() >= 1,
        value_text(v)[0] != ']',
        value_text(v)[0] != ',',
{
    reveal_strlit("null");
    reveal_strlit("true");
    reveal_strlit("false");
    match v {
        Value::UInt(u) => {
            lemma_dec_chars_props(u as int);
            assert(is_digit(value_text(v)[0]));
            assert(!is_digit(']'));
            assert(!is_digit(','));
        },
        Value::Str(s2) => {
            assert(value_text(v)[0] == '"');
        },
        _ => {},
    }
}

/// Where each piece of a request's wire text begins.
pub open spec fn off_method(req: Request) -> int {
    "{\"jsonrpc\":\"2.0\",\"method\":"@.len() as int
}

pub open spec fn off_params_lit(req: Request) -> int {
    off_method(req) + json_string(req.method@).len() as int
}

pub open spec fn off_params(req: Request) -> int {
    off_params_lit(req) + ",\"params\":["@.len() as int
}

pub open spec fn off_id_lit(req: Request) -> int {
    off_params(req) + values_text(req.params@).len() as int
}

pub open spec fn off_id(req: Request) -> int {
    off_id_lit(req) + "],\"id\":"@.len() as int
}

pub open spec fn off_close(req: Request) -> int {
    off_id(req) + dec_chars(req.id as int).len() as int
}

/// A request's wire text, cut into its pieces.
proof fn lemma_request_pieces(t: Seq<char>, req: Request)
    requires
        t == spec_encode_request(req),
    ensures
        t.len() == off_close(req) + 1,
        t.subrange(0, off_method(req)) == "{\"jsonrpc\":\"2.0\",\"method\":"@,
        t.subrange(off_method(req), off_params_lit(req)) == json_string(req.method@),
        t.subrange(off_params_lit(req), off_params(req)) == ",\"params\":["@,
        t.subrange(off_params(req), off_id_lit(req)) == values_text(req.params@),
        t.subrange(off_id_lit(req), off_id(req)) == "],\"id\":"@,
        t.subrange(off_id(req), off_close(req)) == dec_chars(req.id as int),
        t.subrange(off_close(req), t.len() as int) == "}"@,
{
    reveal_strlit("}");
    assert(t.len() == off_close(req) + "}"@.len());
    assert(t.subrange(0, off_method(req)) =~= "{\"jsonrpc\":\"2.0\",\"method\":"@);
    assert(t.subrange(off_method(req), off_params_lit(req)) =~= json_string(req.method@));
    assert(t.subrange(off_params_lit(req), off_params(req)) =~= ",\"params\":["@);
    assert(t.subrange(off_params(req), off_id_lit(req)) =~= values_text(req.params@));
    assert(t.subrange(off_id_lit(req), off_id(req)) =~= "],\"id\":"@);
    assert(t.subrange(off_id(req), off_close(req)) =~= dec_chars(req.id as int));
    assert(t.subrange(off_close(req), t.len() as int) =~= "}"@);
}

/// With `k` parameters consumed, the cursor stands on the text of the
/// next parameter, and what follows that parameter starts with a comma or
/// with the closing bracket.
proof fn lemma_params_cursor(t: Seq<char>, req2: Request, k: int, pos: int)
    requires
        request_encodable(req2),
        t == spec_encode_request(req2),
        0 <= k < req2.params@.len(),
        pos == off_params(req2) + values_text(req2.params@.take(k)).len() + (if k == 0 {
            0int
        } else {
            1int
        }),
    ensures
        t.subrange(pos, t.len() as int) == value_text(req2.params@[k]).add(
            values_rest(req2.params@, k + 1) + t.subrange(off_id_lit(req2), t.len() as int),
        ),
        k + 1 < req2.params@.len() ==> (values_rest(req2.params@, k + 1) + t.subrange(
            off_id_lit(req2),
            t.len() as int,
        ))[0] == ',',
        k + 1 == req2.params@.len() ==> (values_rest(req2.params@, k + 1) + t.subrange(
            off_id_lit(req2),
            t.len() as int,
        ))[0] == ']',
{
    reveal_strlit("],\"id\":");
    lemma_request_pieces(t, req2);
    let ps2 = req2.params@;
    let sep: Seq<char> = if k == 0 {
        Seq::empty()
    } else {
        seq![',']
    };
    lemma_values_rest_split(ps2, k);
    assert(values_rest(ps2, k) == sep + value_text(ps2[k]) + values_rest(ps2, k + 1));
    assert(values_text(ps2) =~= values_text(ps2.take(k)) + sep + value_text(ps2[k]) + values_rest(
        ps2,
        k + 1,
    ));
    assert forall|j: int| 0 <= j < values_text(ps2).len() implies t[off_params(req2) + j]
        == values_text(ps2)[j] by {
        assert(t.subrange(off_params(req2), off_id_lit(req2))[j] == t[off_params(req2) + j]);
    }
    assert(t.subrange(pos, t.len() as int) =~= value_text(ps2[k]).add(
        values_rest(ps2, k + 1) + t.subrange(off_id_lit(req2), t.len() as int),
    ));
    if k + 1 < ps2.len() {
        assert(values_rest(ps2, k + 1) == seq![','] + value_text(ps2[k + 1]) + values_rest(
            ps2,
            k + 2,
        ));
        assert(values_rest(ps2, k + 1)[0] == ',');
    } else {
        assert(values_rest(ps2, k + 1) =~= Seq::<char>::empty());
        assert((values_rest(ps2, k + 1) + t.subrange(off_id_lit(req2), t.len() as int))[0]
            == t.subrange(off_id_lit(req2), t.len() as int)[0]);
        assert(t.subrange(off_id_lit(req2), off_id(req2))[0] == "],\"id\":"@[0]);
        assert("],\"id\":"@[0] == ']');
    }
}

/// Decodes the canonical wire text of a request. A decoded request
/// re-encodes to exactly the given text, and the wire text of every
/// encodable request is decoded; anything else is refused.
#[verifier::rlimit(100)]
pub fn decode_request(text: &str) -> (r: Result<Request, DecodeError>)
    ensures
        match r {
            Ok(req) => text@ == spec_encode_request(req) && req.jsonrpc.0@ == "2.0"@,
            Err(e) => e == DecodeError::Malformed && (forall|req2: Request|
                request_encodable(req2) ==> text@ != #[trigger] spec_encode_request(req2)),
        },
{
    proof {
        reveal_strlit("{\"jsonrpc\":\"2.0\",\"method\":");
        reveal_strlit(",\"params\":[");
        reveal_strlit("],\"id\":");
        reveal_strlit("}");
    }
    let n = text.unicode_len();
    let p1 = match expect_lit(text, 0, "{\"jsonrpc\":\"2.0\",\"method\":") {
        Some(p) => p,
        None => {
            proof {
                assert forall|req2: Request| request_encodable(req2) implies text@
                    != #[trigger] spec_encode_request(req2) by {
                    if text@ == spec_encode_request(req2) {
                        lemma_request_pieces(text@, req2);
                    }
                }
            }
            return Err(DecodeError::Malformed);
        },
    };
    let (method, p2) = match parse_string(text, p1) {
        Some(x) => x,
        None => {
            proof {
                assert forall|req2: Request| request_encodable(req2) implies text@
                    != #[trigger] spec_encode_request(req2) by {
                    if text@ == spec_encode_request(req2) {
                        lemma_request_pieces(text@, req2);
                        assert(text@.subrange(p1 as int, text@.len() as int) =~= json_string(
                            req2.method@,
                        ).add(text@.subrange(off_params_lit(req2), text@.len() as int)));
                    }
                }
            }
            return Err(DecodeError::Malformed);
        },
    };
    let p3 = match expect_lit(text, p2, ",\"params\":[") {
        Some(p) => p,
        None => {
            proof {
                assert forall|req2: Request| request_encodable(req2) implies text@
                    != #[trigger] spec_encode_request(req2) by {
                    if text@ == spec_encode_request(req2) {
                        lemma_request_pieces(text@, req2);
                        assert(text@.subrange(p1 as int, text@.len() as int) =~= json_string(
                            req2.method@,
                        ).add(text@.subrange(off_params_lit(req2), text@.len() as int)));
                        assert(p2 == off_params_lit(req2));
                    }
                }
            }
            return Err(DecodeError::Malformed);
        },
    };
    proof {
        // From here on, a hypothetical encodable request pins the cursor.
        assert forall|req2: Request|
            request_encodable(req2) && text@ == #[trigger] spec_encode_request(req2) implies p3
            == off_params(req2) by {
            lemma_request_pieces(text@, req2);
            assert(text@.subrange(p1 as int, text@.len() as int) =~= json_string(req2.method@).add(
                text@.subrange(off_params_lit(req2), text@.len() as int),
            ));
            assert(p2 == off_params_lit(req2));
        }
    }
    let mut params: Vec<Value> = Vec::new();
    let mut pos = p3;
    if pos >= n {
        proof {
            assert forall|req2: Request| request_encodable(req2) implies text@
                != #[trigger] spec_encode_request(req2) by {
                if text@ == spec_encode_request(req2) {
                    lemma_request_pieces(text@, req2);
                }
            }
        }
        return Err(DecodeError::Malformed);
    }
    if text.get_char(pos) == ']' {
        proof {
            assert forall|req2: Request|
                request_encodable(req2) && text@ == #[trigger] spec_encode_request(req2) implies pos
                == off_id_lit(req2) && params@.len() == req2.params@.len() by {
                lemma_request_pieces(text@, req2);
                let ps2 = req2.params@;
                if ps2.len() > 0 {
                    lemma_values_rest_split(ps2, 0);
                    lemma_value_first_char(ps2[0]);
                    assert(values_text(ps2)[0] == value_text(ps2[0])[0]);
                    assert(text@[pos as int] == values_text(ps2)[0]);
                }
                assert(values_text(ps2) =~= Seq::<char>::empty());
            }
        }
    } else {
        let mut keep_going = true;
        while keep_going
            invariant
                n == text@.len(),
                p3 <= pos <= n,
                keep_going ==> text@.subrange(p3 as int, pos as int) == values_text(params@) + (
                if params@.len() > 0 {
                    seq![',']
                } else {
                    Seq::<char>::empty()
                }),
                !keep_going ==> text@.subrange(p3 as int, pos as int) == values_text(params@)
                    && params@.len() >= 1,
                forall|req2: Request|
                    (request_encodable(req2) && text@ == #[trigger] spec_encode_request(req2))
                        ==> p3 == off_params(req2) && params@.len() <= req2.params@.len() && (
                    keep_going ==> params@.len() < req2.params@.len() && pos == off_params(req2)
                        + values_text(req2.params@.take(params@.len() as int)).len() + (
                    if params@.len() == 0 {
                        0int
                    } else {
                        1int
                    })) && (!keep_going ==> params@.len() == req2.params@.len() && pos == off_id_lit(
                        req2,
                    )),
            decreases n + 1 - pos,
        {
            let ghost k_ghost = params@.len() as int;
            proof {
                assert forall|req2: Request|
                    request_encodable(req2) && text@ == #[trigger] spec_encode_request(req2)
                    implies text@.subrange(pos as int, text@.len() as int) == value_text(
                    req2.params@[k_ghost],
                ).add(
                    values_rest(req2.params@, k_ghost + 1) + text@.subrange(
                        off_id_lit(req2),
                        text@.len() as int,
                    ),
                ) && value_encodable(req2.params@[k_ghost]) && ((req2.params@[k_ghost]
                    matches Value::UInt(_)) ==> !is_digit(
                    (values_rest(req2.params@, k_ghost + 1) + text@.subrange(
                        off_id_lit(req2),
                        text@.len() as int,
                    ))[0],
                )) by {
                    lemma_params_cursor(text@, req2, k_ghost, pos as int);
                    assert(!is_digit(','));
                    assert(!is_digit(']'));
                }
            }
            let (v, p) = match parse_value(text, pos) {
                Some(x) => x,
                None => {
                    proof {
                        assert forall|req2: Request| request_encodable(req2) implies text@
                            != #[trigger] spec_encode_request(req2) by {
                            if text@ == spec_encode_request(req2) {
                                lemma_request_pieces(text@, req2);
                            }
                        }
                    }
                    return Err(DecodeError::Malformed);
                },
            };
            let ghost before = params@;
            params.push(v);
            proof {
                assert(params@.drop_last() =~= before);
                if before.len() == 0 {
                    assert(text@.subrange(p3 as int, pos as int) =~= Seq::<char>::empty());
                    assert(params@[0] == v);
                    assert(values_text(params@) == value_text(v));
                } else {
                    assert(params@.last() == v);
                    assert(values_text(params@) == values_text(before) + seq![','] + value_text(
                        v,
                    ));
                }
                assert(text@.subrange(p3 as int, p as int) =~= text@.subrange(
                    p3 as int,
                    pos as int,
                ) + text@.subrange(pos as int, p as int));
                assert(text@.subrange(p3 as int, p as int) =~= values_text(params@));
            }
            pos = p;
            proof {
                assert forall|req2: Request|
                    request_encodable(req2) && text@ == #[trigger] spec_encode_request(req2)
                    implies params@.len() <= req2.params@.len() && pos == off_params(req2)
                    + values_text(req2.params@.take(params@.len() as int)).len() by {
                    lemma_request_pieces(text@, req2);
                    lemma_values_take_step(req2.params@, k_ghost);
                }
            }
            if pos < n && text.get_char(pos) == ',' {
                pos = pos + 1;
                proof {
                    assert(text@.subrange(p3 as int, pos as int) =~= values_text(params@) + seq![
                        ',',
                    ]);
                    assert forall|req2: Request|
                        request_encodable(req2) && text@ == #[trigger] spec_encode_request(req2)
                        implies params@.len() < req2.params@.len() by {
                        reveal_strlit("],\"id\":");
                        lemma_request_pieces(text@, req2);
                        let ps2 = req2.params@;
                        if params@.len() == ps2.len() {
                            assert(ps2.take(params@.len() as int) =~= ps2);
                            assert(pos - 1 == off_id_lit(req2));
                            assert(text@.subrange(off_id_lit(req2), off_id(req2))[0]
                                == "],\"id\":"@[0]);
                            assert(text@[pos - 1] == "],\"id\":"@[0]);
                            assert("],\"id\":"@[0] == ']');
                        }
                    }
                }
            } else {
                keep_going = false;
                proof {
                    assert forall|req2: Request|
                        request_encodable(req2) && text@ == #[trigger] spec_encode_request(req2)
                        implies params@.len() == req2.params@.len() && pos == off_id_lit(req2) by {
                        lemma_request_pieces(text@, req2);
                        let ps2 = req2.params@;
                        let k2 = params@.len() as int;
                        if k2 < ps2.len() {
                            lemma_values_rest_split(ps2, k2);
                            assert(values_rest(ps2, k2) == seq![','] + value_text(ps2[k2])
                                + values_rest(ps2, k2 + 1));
                            assert(text@[pos as int] == ',');
                            assert(pos < n);
                        }
                    }
                }
            }
        }
    }
    proof {
        if params@.len() == 0 {
            assert(text@.subrange(p3 as int, pos as int) =~= Seq::<char>::empty());
        }
        assert forall|req2: Request|
            request_encodable(req2) && text@ == #[trigger] spec_encode_request(req2) implies pos
            == off_id_lit(req2) by {
            lemma_request_pieces(text@, req2);
        }
    }
    let p4 = match expect_lit(text, pos, "],\"id\":") {
        Some(p) => p,
        None => {
            proof {
                assert forall|req2: Request| request_encodable(req2) implies text@
                    != #[trigger] spec_encode_request(req2) by {
                    if text@ == spec_encode_request(req2) {
                        lemma_request_pieces(text@, req2);
                    }
                }
            }
            return Err(DecodeError::Malformed);
        },
    };
    let (id64, p5) = match parse_u64(text, p4) {
        Some(x) => x,
        None => {
            proof {
                assert forall|req2: Request| request_encodable(req2) implies text@
                    != #[trigger] spec_encode_request(req2) by {
                    if text@ == spec_encode_request(req2) {
                        lemma_request_pieces(text@, req2);
                        assert(text@.subrange(p4 as int, text@.len() as int) =~= dec_chars(
                            (req2.id as u64) as int,
                        ).add(text@.subrange(off_close(req2), text@.len() as int)));
                        assert(text@.subrange(off_close(req2), text@.len() as int)[0] == '}');
                        assert(!is_digit('}'));
                    }
                }
            }
            return Err(DecodeError::Malformed);
        },
    };
    proof {
        assert forall|req2: Request|
            request_encodable(req2) && text@ == #[trigger] spec_encode_request(req2) implies id64
            == req2.id as u64 && p5 == off_close(req2) by {
            lemma_request_pieces(text@, req2);
            assert(text@.subrange(p4 as int, text@.len() as int) =~= dec_chars(
                (req2.id as u64) as int,
            ).add(text@.subrange(off_close(req2), text@.len() as int)));
            assert(text@.subrange(off_close(req2), text@.len() as int)[0] == '}');
            assert(!is_digit('}'));
        }
    }
    if id64 > u32::MAX as u64 {
        proof {
            assert forall|req2: Request| request_encodable(req2) implies text@
                != #[trigger] spec_encode_request(req2) by {
                if text@ == spec_encode_request(req2) {
                    lemma_request_pieces(text@, req2);
                }
            }
        }
        return Err(DecodeError::Malformed);
    }
    let id: u32 = id64 as u32;
    let p6 = match expect_lit(text, p5, "}") {
        Some(p) => p,
        None => {
            proof {
                assert forall|req2: Request| request_encodable(req2) implies text@
                    != #[trigger] spec_encode_request(req2) by {
                    if text@ == spec_encode_request(req2) {
                        lemma_request_pieces(text@, req2);
                    }
                }
            }
            return Err(DecodeError::Malformed);
        },
    };
    if p6 != n {
        proof {
            assert forall|req2: Request| request_encodable(req2) implies text@
                != #[trigger] spec_encode_request(req2) by {
                if text@ == spec_encode_request(req2) {
                    lemma_request_pieces(text@, req2);
                }
            }
        }
        return Err(DecodeError::Malformed);
    }
    let req = Request { jsonrpc: Version::default(), method, params, id };
    proof {
        assert(text@ =~= text@.subrange(0, p1 as int) + text@.subrange(p1 as int, p2 as int)
            + text@.subrange(p2 as int, p3 as int) + text@.subrange(p3 as int, pos as int)
            + text@.subrange(pos as int, p4 as int) + text@.subrange(p4 as int, p5 as int)
            + text@.subrange(p5 as int, p6 as int));
        assert(text@ =~= spec_encode_request(req));
    }
    Ok(req)
}

} // verus!
