//! Verified JSON emission for server-pushed messages: decimal numbers,
//! booleans, escaped strings, and the `{Id, Msg}` envelope that wraps
//! every real-time frame.
use vstd::prelude::*;

verus! {

/// The character for one decimal digit value.
pub open spec fn dec_digit_char(d: int) -> char {
    if d == 0 {
        '0'
    } else if d == 1 {
        '1'
    } else if d == 2 {
        '2'
    } else if d == 3 {
        '3'
    } else if d == 4 {
        '4'
    } else if d == 5 {
        '5'
    } else if d == 6 {
        '6'
    } else if d == 7 {
        '7'
    } else if d == 8 {
        '8'
    } else {
        '9'
    }
}

/// The decimal digit string of a non-negative integer, most significant
/// digit first, without leading zeros.
pub open spec fn dec_digits(n: int) -> Seq<char>
    decreases n,
{
    if n < 10 {
        seq![dec_digit_char(n)]
    } else {
        dec_digits(n / 10).push(dec_digit_char(n % 10))
    }
}

/// The decimal string of an integer, `-` first when negative.
pub open spec fn spec_i64_str(v: int) -> Seq<char> {
    if v < 0 {
        seq!['-'] + dec_digits(-v)
    } else {
        dec_digits(v)
    }
}

/// `true` or `false`.
pub open spec fn spec_bool_str(b: bool) -> Seq<char> {
    if b {
        "true"@
    } else {
        "false"@
    }
}

fn append_digit(out: &mut String, d: u64)
    requires
        d < 10,
    ensures
        final(out)@ == old(out)@.push(dec_digit_char(d as int)),
{
    let ghost pre = old(out)@;
    if d == 0 {
        out.append("0");
        proof {
            reveal_strlit("0");
            assert(pre + "0"@ =~= pre.push('0'));
        }
    } else if d == 1 {
        out.append("1");
        proof {
            reveal_strlit("1");
            assert(pre + "1"@ =~= pre.push('1'));
        }
    } else if d == 2 {
        out.append("2");
        proof {
            reveal_strlit("2");
            assert(pre + "2"@ =~= pre.push('2'));
        }
    } else if d == 3 {
        out.append("3");
        proof {
            reveal_strlit("3");
            assert(pre + "3"@ =~= pre.push('3'));
        }
    } else if d == 4 {
        out.append("4");
        proof {
            reveal_strlit("4");
            assert(pre + "4"@ =~= pre.push('4'));
        }
    } else if d == 5 {
        out.append("5");
        proof {
            reveal_strlit("5");
            assert(pre + "5"@ =~= pre.push('5'));
        }
    } else if d == 6 {
        out.append("6");
        proof {
            reveal_strlit("6");
            assert(pre + "6"@ =~= pre.push('6'));
        }
    } else if d == 7 {
        out.append("7");
        proof {
            reveal_strlit("7");
            assert(pre + "7"@ =~= pre.push('7'));
        }
    } else if d == 8 {
        out.append("8");
        proof {
            reveal_strlit("8");
            assert(pre + "8"@ =~= pre.push('8'));
        }
    } else {
        out.append("9");
        proof {
            reveal_strlit("9");
            assert(pre + "9"@ =~= pre.push('9'));
        }
    }
}

fn append_u64_dec(out: &mut String, n: u64)
    ensures
        final(out)@ == old(out)@ + dec_digits(n as int),
    decreases n,
{
    let ghost pre = old(out)@;
    if n < 10 {
        append_digit(out, n);
        proof {
            assert(pre.push(dec_digit_char(n as int)) =~= pre + dec_digits(n as int));
        }
    } else {
        append_u64_dec(out, n / 10);
        append_digit(out, n % 10);
        proof {
            assert((pre + dec_digits(n as int / 10)).push(dec_digit_char(n as int % 10)) =~= pre
                + dec_digits(n as int / 10).push(dec_digit_char(n as int % 10)));
        }
    }
}

/// Appends the decimal form of `v`.
pub fn append_i64(out: &mut String, v: i64)
    ensures
        final(out)@ == old(out)@ + spec_i64_str(v as int),
{
    let ghost pre = old(out)@;
    if v < 0 {
        out.append("-");
        let mag: u64 = (-(v as i128)) as u64;
        append_u64_dec(out, mag);
        proof {
            reveal_strlit("-");
            assert("-"@ =~= seq!['-']);
            assert((pre + seq!['-']) + dec_digits(mag as int) =~= pre + (seq!['-'] + dec_digits(
                mag as int,
            )));
        }
    } else {
        append_u64_dec(out, v as u64);
    }
}

/// The decimal string of `v`.
pub fn i64_to_string(v: i64) -> (r: String)
    ensures
        r@ == spec_i64_str(v as int),
{
    let mut out = String::new();
    append_i64(&mut out, v);
    proof {
        assert(Seq::<char>::empty() + spec_i64_str(v as int) =~= spec_i64_str(v as int));
    }
    out
}

/// The character for one hexadecimal digit value.
pub open spec fn hex_digit_char(d: int) -> char {
    if d < 10 {
        dec_digit_char(d)
    } else if d == 10 {
        'a'
    } else if d == 11 {
        'b'
    } else if d == 12 {
        'c'
    } else if d == 13 {
        'd'
    } else if d == 14 {
        'e'
    } else {
        'f'
    }
}

fn append_hex_digit(out: &mut String, d: u32)
    requires
        d < 16,
    ensures
        final(out)@ == old(out)@.push(hex_digit_char(d as int)),
{
    let ghost pre = old(out)@;
    if d < 10 {
        append_digit(out, d as u64);
    } else if d == 10 {
        out.append("a");
        proof {
            reveal_strlit("a");
            assert(pre + "a"@ =~= pre.push('a'));
        }
    } else if d == 11 {
        out.append("b");
        proof {
            reveal_strlit("b");
            assert(pre + "b"@ =~= pre.push('b'));
        }
    } else if d == 12 {
        out.append("c");
        proof {
            reveal_strlit("c");
            assert(pre + "c"@ =~= pre.push('c'));
        }
    } else if d == 13 {
        out.append("d");
        proof {
            reveal_strlit("d");
            assert(pre + "d"@ =~= pre.push('d'));
        }
    } else if d == 14 {
        out.append("e");
        proof {
            reveal_strlit("e");
            assert(pre + "e"@ =~= pre.push('e'));
        }
    } else {
        out.append("f");
        proof {
            reveal_strlit("f");
            assert(pre + "f"@ =~= pre.push('f'));
        }
    }
}

/// How one character stands inside a JSON string: quotes and backslashes
/// are escaped, control characters take the `\u00XX` form, and everything
/// else stands as itself.
pub open spec fn esc_char(c: char) -> Seq<char> {
    if c == '"' {
        seq!['\\', '"']
    } else if c == '\\' {
        seq!['\\', '\\']
    } else if (c as u32) < 32 {
        seq!['\\', 'u', '0', '0', hex_digit_char(c as u32 as int / 16), hex_digit_char(
            c as u32 as int % 16,
        )]
    } else {
        seq![c]
    }
}

/// A character sequence escaped for use inside a JSON string literal.
pub open spec fn spec_escape(s: Seq<char>) -> Seq<char>
    decreases s.len(),
{
    if s.len() == 0 {
        Seq::empty()
    } else {
        esc_char(s[0]) + spec_escape(s.skip(1))
    }
}

proof fn lemma_escape_concat(a: Seq<char>, b: Seq<char>)
    ensures
        spec_escape(a + b) == spec_escape(a) + spec_escape(b),
    decreases a.len(),
{
    if a.len() == 0 {
        assert(a + b =~= b);
        assert(spec_escape(a) + spec_escape(b) =~= spec_escape(b));
    } else {
        assert((a + b)[0] == a[0]);
        assert((a + b).skip(1) =~= a.skip(1) + b);
        lemma_escape_concat(a.skip(1), b);
        assert(esc_char(a[0]) + (spec_escape(a.skip(1)) + spec_escape(b)) =~= (esc_char(a[0])
            + spec_escape(a.skip(1))) + spec_escape(b));
    }
}

proof fn lemma_escape_singleton(c: char)
    ensures
        spec_escape(seq![c]) == esc_char(c),
{
    reveal_with_fuel(spec_escape, 2);
    assert(seq![c].skip(1) =~= Seq::<char>::empty());
    assert(esc_char(c) + spec_escape(Seq::<char>::empty()) =~= esc_char(c));
}

/// Appends the characters of `s` escaped for a JSON string literal.
fn append_escaped(out: &mut String, s: &str)
    ensures
        final(out)@ == old(out)@ + spec_escape(s@),
{
    let ghost pre = old(out)@;
    let n = s.unicode_len();
    let mut i: usize = 0;
    while i < n
        invariant
            i <= n,
            n == s@.len(),
            out@ == pre + spec_escape(s@.take(i as int)),
        decreases n - i,
    {
        let c = s.get_char(i);
        let ghost half = out@;
        proof {
            assert(s@.take(i + 1) =~= s@.take(i as int) + seq![c]);
            lemma_escape_concat(s@.take(i as int), seq![c]);
            lemma_escape_singleton(c);
        }
        if c == '"' {
            out.append("\\\"");
            proof {
                reveal_strlit("\\\"");
                assert(half + "\\\""@ =~= pre + spec_escape(s@.take(i + 1)));
            }
        } else if c == '\\' {
            out.append("\\\\");
            proof {
                reveal_strlit("\\\\");
                assert(half + "\\\\"@ =~= pre + spec_escape(s@.take(i + 1)));
            }
        } else if (c as u32) < 32 {
            out.append("\\u00");
            let u = c as u32;
            append_hex_digit(out, u / 16);
            append_hex_digit(out, u % 16);
            proof {
                reveal_strlit("\\u00");
                assert(((half + "\\u00"@).push(hex_digit_char(u as int / 16))).push(
                    hex_digit_char(u as int % 16),
                ) =~= pre + spec_escape(s@.take(i + 1)));
            }
        } else {
            let piece = s.substring_char(i, i + 1);
            out.append(piece);
            proof {
                assert(piece@ =~= seq![c]);
                assert(half + piece@ =~= pre + spec_escape(s@.take(i + 1)));
            }
        }
        i = i + 1;
    }
    proof {
        assert(s@.take(n as int) =~= s@);
    }
}

/// A JSON string literal: quote, escaped characters, quote.
pub open spec fn spec_quoted(s: Seq<char>) -> Seq<char> {
    seq!['"'] + spec_escape(s) + seq!['"']
}

/// Appends `s` as a JSON string literal.
pub fn append_quoted(out: &mut String, s: &str)
    ensures
        final(out)@ == old(out)@ + spec_quoted(s@),
{
    let ghost pre = old(out)@;
    out.append("\"");
    append_escaped(out, s);
    out.append("\"");
    proof {
        reveal_strlit("\"");
        assert("\""@ =~= seq!['"']);
        assert(((pre + seq!['"']) + spec_escape(s@)) + seq!['"'] =~= pre + (seq!['"']
            + spec_escape(s@) + seq!['"']));
    }
}

/// The `{Id, Msg}` wrapper carrying a server-pushed message: the integer
/// message-kind code and the already-serialized payload.
pub open spec fn spec_envelope(msg_id: int, msg: Seq<char>) -> Seq<char> {
    "{\"Id\":"@ + spec_i64_str(msg_id) + ",\"Msg\":"@ + msg + "}"@
}

/// Builds the envelope frame around an already-serialized payload.
pub fn envelope(msg_id: i32, msg_json: &str) -> (r: String)
    ensures
        r@ == spec_envelope(msg_id as int, msg_json@),
{
    let mut out = String::from_str("{\"Id\":");
    append_i64(&mut out, msg_id as i64);
    out.append(",\"Msg\":");
    out.append(msg_json);
    out.append("}");
    proof {
        assert((((("{\"Id\":"@ + spec_i64_str(msg_id as int)) + ",\"Msg\":"@) + msg_json@)
            + "}"@) =~= spec_envelope(msg_id as int, msg_json@));
    }
    out
}

/// Appends `true` or `false`.
pub fn append_bool(out: &mut String, b: bool)
    ensures
        final(out)@ == old(out)@ + spec_bool_str(b),
{
    if b {
        out.append("true");
    } else {
        out.append("false");
    }
}

} // verus!
