use vstd::prelude::*;
use crate::response::BadgeResponse;
use crate::response::compose_success;
use crate::response::logo_svg_spec;
use crate::response::logo_svg_text;
use crate::response::static_fields_ok;

verus! {

/// The hexadecimal digit of a value below sixteen, lower case.
pub open spec fn hex_digit(n: int) -> char {
    if n == 0 {
        '0'
    } else if n == 1 {
        '1'
    } else if n == 2 {
        '2'
    } else if n == 3 {
        '3'
    } else if n == 4 {
        '4'
    } else if n == 5 {
        '5'
    } else if n == 6 {
        '6'
    } else if n == 7 {
        '7'
    } else if n == 8 {
        '8'
    } else if n == 9 {
        '9'
    } else if n == 10 {
        'a'
    } else if n == 11 {
        'b'
    } else if n == 12 {
        'c'
    } else if n == 13 {
        'd'
    } else if n == 14 {
        'e'
    } else {
        'f'
    }
}

/// How one character is written inside a JSON string: quote and backslash
/// take a two-character escape, control characters take the six-character
/// `\u00..` form, and everything else stands as itself.
pub open spec fn escape_char(c: char) -> Seq<char> {
    if c == '"' {
        seq!['\\', '"']
    } else if c == '\\' {
        seq!['\\', '\\']
    } else if (c as u32) < 32 {
        seq![
            '\\',
            'u',
            '0',
            '0',
            hex_digit(c as u32 as int / 16),
            hex_digit(c as u32 as int % 16),
        ]
    } else {
        seq![c]
    }
}

/// The body of a JSON string holding exactly the given text.
pub open spec fn escape(s: Seq<char>) -> Seq<char>
    decreases s.len(),
{
    if s.len() == 0 {
        Seq::empty()
    } else {
        escape_char(s[0]) + escape(s.skip(1))
    }
}

/// Escaping distributes over concatenation.
pub proof fn lemma_escape_append(a: Seq<char>, b: Seq<char>)
    ensures
        escape(a + b) == escape(a) + escape(b),
    decreases a.len(),
{
    if a.len() == 0 {
        assert(a + b =~= b);
        assert(escape(a) + escape(b) =~= escape(b));
    } else {
        assert((a + b).skip(1) =~= a.skip(1) + b);
        assert((a + b)[0] == a[0]);
        lemma_escape_append(a.skip(1), b);
        assert(escape(a + b) =~= escape(a) + escape(b));
    }
}

/// Escaping one more character appends that character's escape.
pub proof fn lemma_escape_take_snoc(s: Seq<char>, i: int)
    requires
        0 <= i < s.len(),
    ensures
        escape(s.take(i + 1)) == escape(s.take(i)) + escape_char(s[i]),
{
    assert(s.take(i + 1) =~= s.take(i) + seq![s[i]]);
    lemma_escape_append(s.take(i), seq![s[i]]);
    assert(seq![s[i]].skip(1) =~= Seq::<char>::empty());
    assert(escape(seq![s[i]]) == escape_char(s[i]) + escape(seq![s[i]].skip(1)));
    assert(escape_char(s[i]) + Seq::<char>::empty() =~= escape_char(s[i]));
}

/// The characters of a string, in order, as a vector.
pub fn chars_vec(s: &str) -> (r: Vec<char>)
    ensures
        r@ == s@,
{
    let n = s.unicode_len();
    let mut r: Vec<char> = Vec::new();
    let mut i: usize = 0;
    while i < n
        invariant
            i <= n,
            n == s@.len(),
            r@ == s@.take(i as int),
        decreases n - i,
    {
        let c = s.get_char(i);
        r.push(c);
        proof {
            assert(s@.take(i + 1) =~= s@.take(i as int).push(s@[i as int]));
        }
        i += 1;
    }
    proof {
        assert(s@.take(n as int) =~= s@);
    }
    r
}

/// Relies on `String::push`: appends exactly the one character.
#[verifier::external_body]
fn push_char(s: &mut String, c: char)
    ensures
        final(s)@ == old(s)@.push(c),
{
    s.push(c);
}

/// The characters of a vector, in order, as a string.
pub fn string_from_chars(v: &Vec<char>) -> (r: String)
    ensures
        r@ == v@,
{
    let n = v.len();
    let mut r = String::new();
    let mut i: usize = 0;
    while i < n
        invariant
            i <= n,
            n == v@.len(),
            r@ == v@.take(i as int),
        decreases n - i,
    {
        push_char(&mut r, v[i]);
        proof {
            assert(v@.take(i + 1) =~= v@.take(i as int).push(v@[i as int]));
        }
        i += 1;
    }
    proof {
        assert(v@.take(n as int) =~= v@);
    }
    r
}

/// The hexadecimal digit of a value below sixteen, as executable code.
fn hex_digit_exec(n: u8) -> (c: char)
    requires
        n < 16,
    ensures
        c == hex_digit(n as int),
{
    if n == 0 {
        '0'
    } else if n == 1 {
        '1'
    } else if n == 2 {
        '2'
    } else if n == 3 {
        '3'
    } else if n == 4 {
        '4'
    } else if n == 5 {
        '5'
    } else if n == 6 {
        '6'
    } else if n == 7 {
        '7'
    } else if n == 8 {
        '8'
    } else if n == 9 {
        '9'
    } else if n == 10 {
        'a'
    } else if n == 11 {
        'b'
    } else if n == 12 {
        'c'
    } else if n == 13 {
        'd'
    } else if n == 14 {
        'e'
    } else {
        'f'
    }
}

/// Appends the escape of one character.
fn push_escaped_char(out: &mut Vec<char>, c: char)
    ensures
        final(out)@ == old(out)@ + escape_char(c),
{
    if c == '"' {
        out.push('\\');
        out.push('"');
        proof {
            assert(out@ =~= old(out)@ + escape_char(c));
        }
    } else if c == '\\' {
        out.push('\\');
        out.push('\\');
        proof {
            assert(out@ =~= old(out)@ + escape_char(c));
        }
    } else {
        let code = c as u32;
        if code < 32 {
            out.push('\\');
            out.push('u');
            out.push('0');
            out.push('0');
            out.push(hex_digit_exec((code / 16) as u8));
            out.push(hex_digit_exec((code % 16) as u8));
            proof {
                assert(out@ =~= old(out)@ + escape_char(c));
            }
        } else {
            out.push(c);
            proof {
                assert(out@ =~= old(out)@ + escape_char(c));
            }
        }
    }
}

/// Appends the escaped form of a whole string.
fn escape_into(out: &mut Vec<char>, s: &str)
    ensures
        final(out)@ == old(out)@ + escape(s@),
{
    let cs = chars_vec(s);
    let n = cs.len();
    let mut i: usize = 0;
    while i < n
        invariant
            i <= n,
            n == cs@.len(),
            cs@ == s@,
            out@ == old(out)@ + escape(s@.take(i as int)),
        decreases n - i,
    {
        let c = cs[i];
        push_escaped_char(out, c);
        proof {
            lemma_escape_take_snoc(s@, i as int);
            assert(out@ =~= old(out)@ + escape(s@.take(i + 1)));
        }
        i += 1;
    }
    proof {
        assert(s@.take(n as int) =~= s@);
    }
}

/// Appends the characters of a literal unchanged.
fn push_str_chars(out: &mut Vec<char>, s: &str)
    ensures
        final(out)@ == old(out)@ + s@,
{
    let cs = chars_vec(s);
    let n = cs.len();
    let mut i: usize = 0;
    while i < n
        invariant
            i <= n,
            n == cs@.len(),
            cs@ == s@,
            out@ == old(out)@ + s@.take(i as int),
        decreases n - i,
    {
        let c = cs[i];
        out.push(c);
        proof {
            assert(out@ =~= old(out)@ + s@.take(i + 1));
        }
        i += 1;
    }
    proof {
        assert(s@.take(n as int) =~= s@);
    }
}

/// The opening of the payload, up to the `isError` value.
pub open spec fn json_head() -> Seq<char> {
    "{\"isError\":"@
}

/// The JSON text of a boolean.
pub open spec fn bool_text(b: bool) -> Seq<char> {
    if b {
        "true"@
    } else {
        "false"@
    }
}

/// The fixed fields between the `isError` value and the message text.
pub open spec fn json_mid() -> Seq<char> {
    ",\"schemaVersion\":1,\"label\":\"Sakatsu\",\"message\":\""@
}

/// The fixed fields between the message text and the logo text.
pub open spec fn json_tail_lit() -> Seq<char> {
    "\",\"color\":\"0051e0\",\"cacheSeconds\":1800,\"logoSvg\":\""@
}

/// The closing of the payload after the logo text.
pub open spec fn json_end() -> Seq<char> {
    "\"}"@
}

/// Everything that follows the message text: the remaining fixed fields,
/// the escaped logo, and the closing brace.
pub open spec fn json_tail() -> Seq<char> {
    json_tail_lit() + escape(logo_svg_spec()) + json_end()
}

/// The canonical JSON text of a badge payload whose static fields hold the
/// shared constants: only `isError` and `message` vary.
pub open spec fn json_of(is_error: bool, message: Seq<char>) -> Seq<char> {
    json_head() + bool_text(is_error) + json_mid() + escape(message) + json_tail()
}

/// The shape of one escape unit, read off its first characters.
proof fn lemma_escape_char_shape(c: char)
    ensures
        escape_char(c).len() >= 1,
        escape_char(c)[0] != '"',
        (escape_char(c)[0] == '\\') <==> (c == '"' || c == '\\' || (c as u32) < 32),
        escape_char(c)[0] == '\\' ==> escape_char(c).len() >= 2,
        c == '"' ==> escape_char(c) == seq!['\\', '"'],
        c == '\\' ==> escape_char(c) == seq!['\\', '\\'],
        (c != '"' && c != '\\' && (c as u32) < 32) ==> escape_char(c).len() == 6
            && escape_char(c)[1] == 'u' && escape_char(c)[2] == '0' && escape_char(c)[3] == '0'
            && escape_char(c)[4] == hex_digit(c as u32 as int / 16)
            && escape_char(c)[5] == hex_digit(c as u32 as int % 16),
        (c != '"' && c != '\\' && (c as u32) >= 32) ==> escape_char(c) == seq![c],
{
}

/// Distinct values below sixteen have distinct hexadecimal digits.
proof fn lemma_hex_digit_injective(a: int, b: int)
    requires
        0 <= a < 16,
        0 <= b < 16,
        hex_digit(a) == hex_digit(b),
    ensures
        a == b,
{
}

/// The value of a lower-case hexadecimal digit, if the character is one.
fn hex_val(c: char) -> (r: Option<u8>)
    ensures
        r matches Some(n) ==> n < 16 && hex_digit(n as int) == c,
        r is None ==> (forall|n: int| 0 <= n < 16 ==> hex_digit(n) != c),
{
    if c == '0' {
        Some(0)
    } else if c == '1' {
        Some(1)
    } else if c == '2' {
        Some(2)
    } else if c == '3' {
        Some(3)
    } else if c == '4' {
        Some(4)
    } else if c == '5' {
        Some(5)
    } else if c == '6' {
        Some(6)
    } else if c == '7' {
        Some(7)
    } else if c == '8' {
        Some(8)
    } else if c == '9' {
        Some(9)
    } else if c == 'a' {
        Some(10)
    } else if c == 'b' {
        Some(11)
    } else if c == 'c' {
        Some(12)
    } else if c == 'd' {
        Some(13)
    } else if c == 'e' {
        Some(14)
    } else if c == 'f' {
        Some(15)
    } else {
        None
    }
}

/// Checks that the text holds exactly the given literal at the given
/// position.
fn expect_lit(v: &Vec<char>, i: usize, lit: &str) -> (r: Option<usize>)
    requires
        i <= v@.len(),
    ensures
        r matches Some(j) ==> j == i + lit@.len() && j <= v@.len()
            && v@.subrange(i as int, j as int) == lit@,
        r is None ==> !(i + lit@.len() <= v@.len()
            && v@.subrange(i as int, i + lit@.len()) == lit@),
{
    let lc = chars_vec(lit);
    let m = lc.len();
    let vn = v.len();
    if vn - i < m {
        return None;
    }
    let mut k: usize = 0;
    while k < m
        invariant
            k <= m,
            m == lc@.len(),
            lc@ == lit@,
            vn == v@.len(),
            i + m <= vn,
            forall|t: int| 0 <= t < k ==> v@[i + t] == lc@[t],
        decreases m - k,
    {
        if v[i + k] != lc[k] {
            proof {
                assert(v@.subrange(i as int, i + lit@.len())[k as int] == v@[i + k]);
            }
            return None;
        }
        k += 1;
    }
    proof {
        assert(v@.subrange(i as int, i + lit@.len()) =~= lit@);
    }
    Some(i + m)
}

/// Equal code points mean equal characters.
proof fn lemma_char_code_injective(a: char, b: char)
    requires
        a as u32 == b as u32,
    ensures
        a == b,
{
}

/// Reads the body of a JSON string from the given position up to its
/// closing quote, undoing the canonical escapes; refuses any text that
/// canonical escaping would not have produced.
#[verifier::rlimit(100)]
fn unescape_from(v: &Vec<char>, i: usize) -> (r: Option<(Vec<char>, usize)>)
    requires
        i <= v@.len(),
    ensures
        r matches Some(p) ==> ({
            &&& i <= p.1 < v@.len()
            &&& v@[p.1 as int] == '"'
            &&& v@.subrange(i as int, p.1 as int) == escape(p.0@)
        }),
        (forall|m: Seq<char>, rest: Seq<char>|
            v@.skip(i as int) == escape(m) + seq!['"'] + rest ==> r is Some),
    decreases v@.len() - i,
{
    let ghost t = v@.skip(i as int);
    if i == v.len() {
        proof {
            assert forall|m: Seq<char>, rest: Seq<char>|
                t == escape(m) + seq!['"'] + rest implies false by {
                assert((escape(m) + seq!['"'] + rest).len() >= 1);
            };
        }
        return None;
    }
    let c = v[i];
    proof {
        assert(t[0] == c);
        assert(t.len() == v@.len() - i);
    }
    if c == '"' {
        let out: Vec<char> = Vec::new();
        proof {
            assert(v@.subrange(i as int, i as int) =~= escape(out@));
        }
        return Some((out, i));
    }
    let (d, k): (char, usize) = if c == '\\' {
        proof {
            assert forall|m: Seq<char>, rest: Seq<char>|
                t == escape(m) + seq!['"'] + rest implies m.len() > 0 && escape(m) == escape_char(
                m[0],
            ) + escape(m.skip(1)) && escape_char(m[0])[0] == '\\' && escape_char(m[0]).len() >= 2
                && t.len() >= escape_char(m[0]).len() + 1 && (forall|q: int|
                0 <= q < escape_char(m[0]).len() ==> t[q] == escape_char(m[0])[q]) by {
                if m.len() == 0 {
                    assert(t[0] == '"');
                } else {
                    lemma_escape_char_shape(m[0]);
                    assert(t[0] == escape_char(m[0])[0]);
                    assert(forall|q: int|
                        0 <= q < escape_char(m[0]).len() ==> t[q] == escape_char(m[0])[q]);
                }
            };
        }
        if i + 1 == v.len() {
            proof {
                assert forall|m: Seq<char>, rest: Seq<char>|
                    t == escape(m) + seq!['"'] + rest implies false by {
                    assert(t.len() >= 3);
                };
            }
            return None;
        }
        let c2 = v[i + 1];
        proof {
            assert(t[1] == c2);
        }
        if c2 == '"' {
            proof {
                assert forall|m: Seq<char>, rest: Seq<char>|
                    t == escape(m) + seq!['"'] + rest implies m.len() > 0 && m[0] == '"' by {
                    lemma_escape_char_shape(m[0]);
                    assert(t[1] == escape_char(m[0])[1]);
                };
                assert(v@.subrange(i as int, i + 2) =~= seq!['\\', '"']);
            }
            ('"', 2)
        } else if c2 == '\\' {
            proof {
                assert forall|m: Seq<char>, rest: Seq<char>|
                    t == escape(m) + seq!['"'] + rest implies m.len() > 0 && m[0] == '\\' by {
                    lemma_escape_char_shape(m[0]);
                    assert(t[1] == escape_char(m[0])[1]);
                };
                assert(v@.subrange(i as int, i + 2) =~= seq!['\\', '\\']);
            }
            ('\\', 2)
        } else if c2 == 'u' {
            proof {
                assert forall|m: Seq<char>, rest: Seq<char>|
                    t == escape(m) + seq!['"'] + rest implies m.len() > 0 && m[0] != '"' && m[0]
                    != '\\' && (m[0] as u32) < 32 && escape_char(m[0]).len() == 6 && t.len() >= 7
                    && t[2] == '0' && t[3] == '0' && t[4] == hex_digit(m[0] as u32 as int / 16)
                    && t[5] == hex_digit(m[0] as u32 as int % 16) by {
                    lemma_escape_char_shape(m[0]);
                    assert(t[1] == escape_char(m[0])[1]);
                };
            }
            if v.len() - i < 7 {
                proof {
                    assert forall|m: Seq<char>, rest: Seq<char>|
                        t == escape(m) + seq!['"'] + rest implies false by {};
                }
                return None;
            }
            let z1 = v[i + 2];
            let z2 = v[i + 3];
            if z1 != '0' || z2 != '0' {
                proof {
                    assert(t[2] == z1 && t[3] == z2);
                    assert forall|m: Seq<char>, rest: Seq<char>|
                        t == escape(m) + seq!['"'] + rest implies false by {};
                }
                return None;
            }
            let h = v[i + 4];
            let l = v[i + 5];
            let hv = hex_val(h);
            let lv = hex_val(l);
            proof {
                assert(t[4] == h && t[5] == l);
            }
            if hv.is_none() || lv.is_none() {
                proof {
                    assert forall|m: Seq<char>, rest: Seq<char>|
                        t == escape(m) + seq!['"'] + rest implies false by {
                        assert(0 <= m[0] as u32 as int / 16 < 16);
                        assert(0 <= m[0] as u32 as int % 16 < 16);
                        assert(hex_digit(m[0] as u32 as int / 16) == h);
                        assert(hex_digit(m[0] as u32 as int % 16) == l);
                    };
                }
                return None;
            }
            let nh = hv.unwrap();
            let nl = lv.unwrap();
            let code: u8 = 16 * nh + nl;
            proof {
                assert forall|m: Seq<char>, rest: Seq<char>|
                    t == escape(m) + seq!['"'] + rest implies (m[0] as u32) == code by {
                    lemma_hex_digit_injective(nh as int, m[0] as u32 as int / 16);
                    lemma_hex_digit_injective(nl as int, m[0] as u32 as int % 16);
                    assert(m[0] as u32 as int == 16 * (m[0] as u32 as int / 16) + (m[0] as u32
                        as int % 16));
                };
            }
            if code >= 32 {
                proof {
                    assert forall|m: Seq<char>, rest: Seq<char>|
                        t == escape(m) + seq!['"'] + rest implies false by {};
                }
                return None;
            }
            let d0 = code as char;
            proof {
                assert(d0 as u32 == code);
                assert('"' as u32 == 34);
                assert('\\' as u32 == 92);
                assert(code as int / 16 == nh as int && code as int % 16 == nl as int)
                    by (nonlinear_arith)
                    requires
                        code == 16 * nh + nl,
                        nh < 16,
                        nl < 16,
                ;
                lemma_escape_char_shape(d0);
                assert(escape_char(d0).len() == 6);
                assert(v@.subrange(i as int, i + 6) =~= escape_char(d0));
                assert forall|m: Seq<char>, rest: Seq<char>|
                    t == escape(m) + seq!['"'] + rest implies m.len() > 0 && m[0] == d0 by {
                    lemma_char_code_injective(m[0], d0);
                };
            }
            (d0, 6)
        } else {
            proof {
                assert forall|m: Seq<char>, rest: Seq<char>|
                    t == escape(m) + seq!['"'] + rest implies false by {
                    lemma_escape_char_shape(m[0]);
                    assert(t[1] == escape_char(m[0])[1]);
                };
            }
            return None;
        }
    } else {
        if (c as u32) < 32 {
            proof {
                assert forall|m: Seq<char>, rest: Seq<char>|
                    t == escape(m) + seq!['"'] + rest implies false by {
                    if m.len() == 0 {
                        assert(t[0] == '"');
                    } else {
                        lemma_escape_char_shape(m[0]);
                        assert(t[0] == escape_char(m[0])[0]);
                        assert(escape_char(m[0])[0] != '\\');
                        assert(escape_char(m[0]) == seq![m[0]]);
                    }
                };
            }
            return None;
        }
        proof {
            lemma_escape_char_shape(c);
            assert(escape_char(c) == seq![c]);
            assert(v@.subrange(i as int, i + 1) =~= seq![c]);
            assert forall|m: Seq<char>, rest: Seq<char>|
                t == escape(m) + seq!['"'] + rest implies m.len() > 0 && m[0] == c by {
                if m.len() == 0 {
                    assert(t[0] == '"');
                } else {
                    lemma_escape_char_shape(m[0]);
                    assert(t[0] == escape_char(m[0])[0]);
                    assert(escape_char(m[0])[0] != '\\');
                    assert(escape_char(m[0]) == seq![m[0]]);
                }
            };
        }
        (c, 1)
    };
    proof {
        lemma_escape_char_shape(d);
        assert(escape_char(d).len() == k);
        assert(i + k <= v@.len());
        assert(v@.subrange(i as int, i + k) =~= escape_char(d));
        assert forall|m: Seq<char>, rest: Seq<char>|
            t == escape(m) + seq!['"'] + rest implies m.len() > 0 && m[0] == d && v@.skip(i + k)
            == escape(m.skip(1)) + seq!['"'] + rest by {
            assert(m.len() > 0 && m[0] == d);
            lemma_escape_char_shape(m[0]);
            assert(escape(m) == escape_char(d) + escape(m.skip(1)));
            assert(v@.skip(i + k) =~= t.skip(k as int));
            assert(t.skip(k as int) =~= escape(m.skip(1)) + seq!['"'] + rest);
        };
    }
    let r2 = unescape_from(v, i + k);
    match r2 {
        None => {
            proof {
                assert forall|m: Seq<char>, rest: Seq<char>|
                    t == escape(m) + seq!['"'] + rest implies false by {
                    assert(v@.skip(i + k) == escape(m.skip(1)) + seq!['"'] + rest);
                };
            }
            None
        },
        Some((rest_chars, j)) => {
            let mut rest_chars = rest_chars;
            let ghost mrest = rest_chars@;
            let mut out: Vec<char> = Vec::new();
            out.push(d);
            out.append(&mut rest_chars);
            proof {
                assert(out@ =~= seq![d] + mrest);
                assert(out@[0] == d);
                assert(out@.skip(1) =~= mrest);
                assert(escape(out@) == escape_char(d) + escape(mrest));
                assert(v@.subrange(i as int, j as int) =~= v@.subrange(i as int, i + k)
                    + v@.subrange(i + k, j as int));
                assert(escape(out@) =~= v@.subrange(i as int, j as int));
            }
            Some((out, j))
        },
    }
}

/// A JSON string body ends at its first unescaped quote: one text has at
/// most one reading as an escaped body, a quote, and a remainder.
pub proof fn lemma_escape_unambiguous(m1: Seq<char>, t1: Seq<char>, m2: Seq<char>, t2: Seq<char>)
    requires
        escape(m1) + seq!['"'] + t1 == escape(m2) + seq!['"'] + t2,
    ensures
        m1 == m2,
        t1 == t2,
    decreases m1.len(),
{
    let s = escape(m1) + seq!['"'] + t1;
    if m1.len() == 0 {
        if m2.len() > 0 {
            lemma_escape_char_shape(m2[0]);
            assert(s[0] == '"');
            assert(s[0] == escape_char(m2[0])[0]);
            assert(false);
        }
        assert(m1 =~= m2);
        assert(t1 =~= s.skip(1));
        assert(t2 =~= s.skip(1));
    } else {
        if m2.len() == 0 {
            lemma_escape_char_shape(m1[0]);
            assert(s[0] == '"');
            assert(s[0] == escape_char(m1[0])[0]);
            assert(false);
        }
        let a = m1[0];
        let b = m2[0];
        lemma_escape_char_shape(a);
        lemma_escape_char_shape(b);
        assert(escape(m1) == escape_char(a) + escape(m1.skip(1)));
        assert(escape(m2) == escape_char(b) + escape(m2.skip(1)));
        assert(s[0] == escape_char(a)[0]);
        assert(s[0] == escape_char(b)[0]);
        if escape_char(a)[0] != '\\' {
            assert(escape_char(a) == seq![a]);
            assert(escape_char(b)[0] != '\\');
            assert(escape_char(b) == seq![b]);
            assert(a == b);
        } else {
            assert(escape_char(b)[0] == '\\');
            assert(s[1] == escape_char(a)[1]);
            assert(s[1] == escape_char(b)[1]);
            if a == '"' || b == '"' {
                assert(a == '"' <==> s[1] == '"');
                assert(b == '"' <==> s[1] == '"');
                assert(a == b);
            } else if a == '\\' || b == '\\' {
                assert(a == '\\' <==> s[1] == '\\');
                assert(b == '\\' <==> s[1] == '\\');
                assert(a == b);
            } else {
                assert((a as u32) < 32 && (b as u32) < 32);
                assert(s[4] == hex_digit(a as u32 as int / 16));
                assert(s[4] == hex_digit(b as u32 as int / 16));
                assert(s[5] == hex_digit(a as u32 as int % 16));
                assert(s[5] == hex_digit(b as u32 as int % 16));
                lemma_hex_digit_injective(a as u32 as int / 16, b as u32 as int / 16);
                lemma_hex_digit_injective(a as u32 as int % 16, b as u32 as int % 16);
                assert(a as u32 as int == 16 * (a as u32 as int / 16) + (a as u32 as int % 16));
                assert(b as u32 as int == 16 * (b as u32 as int / 16) + (b as u32 as int % 16));
                lemma_char_code_injective(a, b);
            }
        }
        let n = escape_char(a).len() as int;
        assert(escape_char(a) =~= escape_char(b));
        assert(escape(m1.skip(1)) + seq!['"'] + t1 =~= s.skip(n));
        assert(escape(m2.skip(1)) + seq!['"'] + t2 =~= s.skip(n));
        lemma_escape_unambiguous(m1.skip(1), t1, m2.skip(1), t2);
        assert(m1.len() == m2.len());
        assert forall|qi: int| 0 <= qi < m1.len() implies m1[qi] == m2[qi] by {
            if qi > 0 {
                assert(m1[qi] == m1.skip(1)[qi - 1]);
                assert(m2[qi] == m2.skip(1)[qi - 1]);
            }
        };
        assert(m1 =~= m2);
    }
}

/// Where each segment of the canonical payload stands in the whole text.
proof fn lemma_json_of_parts(e: bool, m: Seq<char>)
    ensures
        json_of(e, m).len() == json_head().len() + bool_text(e).len() + json_mid().len() + escape(
            m,
        ).len() + json_tail().len(),
        json_of(e, m).subrange(0, json_head().len() as int) == json_head(),
        json_of(e, m).subrange(
            json_head().len() as int,
            (json_head().len() + bool_text(e).len()) as int,
        ) == bool_text(e),
        json_of(e, m).subrange(
            (json_head().len() + bool_text(e).len()) as int,
            (json_head().len() + bool_text(e).len() + json_mid().len()) as int,
        ) == json_mid(),
        json_of(e, m).skip((json_head().len() + bool_text(e).len() + json_mid().len()) as int)
            == escape(m) + json_tail(),
{
    let s = json_of(e, m);
    let o3 = (json_head().len() + bool_text(e).len() + json_mid().len()) as int;
    assert(s.subrange(0, json_head().len() as int) =~= json_head());
    assert(s.subrange(json_head().len() as int, (json_head().len() + bool_text(e).len()) as int)
        =~= bool_text(e));
    assert(s.subrange((json_head().len() + bool_text(e).len()) as int, o3) =~= json_mid());
    assert(s.skip(o3) =~= escape(m) + json_tail());
}

/// One JSON text is the canonical payload of at most one pair of `isError`
/// value and message: nothing is lost in serialising them.
pub proof fn lemma_json_of_injective(e1: bool, m1: Seq<char>, e2: bool, m2: Seq<char>)
    requires
        json_of(e1, m1) == json_of(e2, m2),
    ensures
        e1 == e2,
        m1 == m2,
{
    lemma_json_of_parts(e1, m1);
    lemma_json_of_parts(e2, m2);
    let s = json_of(e1, m1);
    let o1 = json_head().len() as int;
    if e1 != e2 {
        reveal_strlit("true");
        reveal_strlit("false");
        assert(s[o1] == bool_text(e1)[0]);
        assert(s[o1] == bool_text(e2)[0]);
        assert(false);
    }
    let q = json_tail_lit().skip(1) + escape(logo_svg_spec()) + json_end();
    reveal_strlit("\",\"color\":\"0051e0\",\"cacheSeconds\":1800,\"logoSvg\":\"");
    assert(json_tail_lit()[0] == '"');
    assert(json_tail() =~= seq!['"'] + q);
    assert(escape(m1) + json_tail() =~= escape(m1) + seq!['"'] + q);
    assert(escape(m2) + json_tail() =~= escape(m2) + seq!['"'] + q);
    assert(escape(m1) + seq!['"'] + q == escape(m2) + seq!['"'] + q);
    lemma_escape_unambiguous(m1, q, m2, q);
}

/// Serialises a response to its JSON text: the fixed field set of the badge
/// schema, in order, with the message and the logo written as escaped JSON
/// strings.
pub fn to_json(resp: &BadgeResponse) -> (r: String)
    requires
        static_fields_ok(*resp),
    ensures
        r@ == json_of(resp.is_error, resp.message@),
{
    let mut out: Vec<char> = Vec::new();
    push_str_chars(&mut out, "{\"isError\":");
    if resp.is_error {
        push_str_chars(&mut out, "true");
    } else {
        push_str_chars(&mut out, "false");
    }
    push_str_chars(&mut out, ",\"schemaVersion\":1,\"label\":\"Sakatsu\",\"message\":\"");
    escape_into(&mut out, resp.message.as_str());
    push_str_chars(&mut out, "\",\"color\":\"0051e0\",\"cacheSeconds\":1800,\"logoSvg\":\"");
    escape_into(&mut out, resp.logo_svg.as_str());
    push_str_chars(&mut out, "\"}");
    proof {
        assert(out@ =~= json_of(resp.is_error, resp.message@));
    }
    string_from_chars(&out)
}


/// Parses the canonical JSON text of a badge payload back into a response:
/// it accepts exactly the texts that serialising produces, and returns the
/// response they encode.
#[verifier::rlimit(100)]
pub fn from_json(s: &str) -> (r: Option<BadgeResponse>)
    ensures
        r matches Some(resp) ==> static_fields_ok(resp) && s@ == json_of(
            resp.is_error,
            resp.message@,
        ),
        forall|e: bool, m: Seq<char>|
            s@ == json_of(e, m) ==> (r matches Some(resp) && resp.is_error == e && resp.message@
                == m),
{
    let v = chars_vec(s);
    let i1 = match expect_lit(&v, 0, "{\"isError\":") {
        Some(j) => j,
        None => {
            proof {
                assert forall|e: bool, m: Seq<char>| s@ == json_of(e, m) implies false by {
                    lemma_json_of_parts(e, m);
                };
            }
            return None;
        },
    };
    let (is_err, i2): (bool, usize) = match expect_lit(&v, i1, "true") {
        Some(j) => (true, j),
        None => match expect_lit(&v, i1, "false") {
            Some(j) => (false, j),
            None => {
                proof {
                    assert forall|e: bool, m: Seq<char>| s@ == json_of(e, m) implies false by {
                        lemma_json_of_parts(e, m);
                    };
                }
                return None;
            },
        },
    };
    proof {
        assert forall|e: bool, m: Seq<char>| s@ == json_of(e, m) implies e == is_err && i2
            == json_head().len() + bool_text(e).len() by {
            lemma_json_of_parts(e, m);
            reveal_strlit("true");
            reveal_strlit("false");
            if e != is_err {
                assert(v@.subrange(i1 as int, i2 as int)[0] == v@[i1 as int]);
                assert(s@.subrange(
                    json_head().len() as int,
                    (json_head().len() + bool_text(e).len()) as int,
                )[0] == s@[i1 as int]);
            }
        };
    }
    let i3 = match expect_lit(&v, i2, ",\"schemaVersion\":1,\"label\":\"Sakatsu\",\"message\":\"") {
        Some(j) => j,
        None => {
            proof {
                assert forall|e: bool, m: Seq<char>| s@ == json_of(e, m) implies false by {
                    lemma_json_of_parts(e, m);
                };
            }
            return None;
        },
    };
    let ghost qtail = json_tail_lit().skip(1) + escape(logo_svg_spec()) + json_end();
    proof {
        reveal_strlit("\",\"color\":\"0051e0\",\"cacheSeconds\":1800,\"logoSvg\":\"");
        reveal_strlit("\"}");
        assert(json_tail_lit()[0] == '"');
        assert(json_tail() =~= seq!['"'] + qtail);
        assert forall|e: bool, m: Seq<char>| s@ == json_of(e, m) implies v@.skip(i3 as int)
            == escape(m) + seq!['"'] + qtail by {
            lemma_json_of_parts(e, m);
            assert(i3 == json_head().len() + bool_text(e).len() + json_mid().len());
            assert(escape(m) + json_tail() =~= escape(m) + seq!['"'] + qtail);
        };
    }
    let msg_pair = unescape_from(&v, i3);
    let (msg, j4) = match msg_pair {
        Some(p) => p,
        None => {
            proof {
                assert forall|e: bool, m: Seq<char>| s@ == json_of(e, m) implies false by {
                    assert(v@.skip(i3 as int) == escape(m) + seq!['"'] + qtail);
                };
            }
            return None;
        },
    };
    proof {
        assert(v@.skip(i3 as int) =~= escape(msg@) + seq!['"'] + v@.skip(j4 + 1));
        assert forall|e: bool, m: Seq<char>| s@ == json_of(e, m) implies m == msg@ && v@.skip(
            j4 + 1,
        ) == qtail by {
            assert(v@.skip(i3 as int) == escape(m) + seq!['"'] + qtail);
            lemma_escape_unambiguous(m, qtail, msg@, v@.skip(j4 + 1));
        };
    }
    let i5 = match expect_lit(&v, j4, "\",\"color\":\"0051e0\",\"cacheSeconds\":1800,\"logoSvg\":\"") {
        Some(j) => j,
        None => {
            proof {
                assert forall|e: bool, m: Seq<char>| s@ == json_of(e, m) implies false by {
                    assert(v@.skip(j4 + 1) == qtail);
                    assert(j4 + json_tail_lit().len() <= v@.len());
                    assert(v@.subrange(j4 as int, j4 + json_tail_lit().len()) =~= json_tail_lit());
                };
            }
            return None;
        },
    };
    let logo_pair = unescape_from(&v, i5);
    let (logo, j6) = match logo_pair {
        Some(p) => p,
        None => {
            proof {
                assert forall|e: bool, m: Seq<char>| s@ == json_of(e, m) implies false by {
                    assert(v@.skip(j4 + 1) == qtail);
                    assert(v@.skip(i5 as int) =~= qtail.skip(json_tail_lit().len() - 1));
                    assert(qtail.skip(json_tail_lit().len() - 1) =~= escape(logo_svg_spec())
                        + json_end());
                    assert(json_end()[0] == '"');
                    assert(escape(logo_svg_spec()) + json_end() =~= escape(logo_svg_spec())
                        + seq!['"'] + json_end().skip(1));
                };
            }
            return None;
        },
    };
    proof {
        assert(v@.skip(i5 as int) =~= escape(logo@) + seq!['"'] + v@.skip(j6 + 1));
        assert forall|e: bool, m: Seq<char>| s@ == json_of(e, m) implies logo@ == logo_svg_spec()
            && v@.skip(j6 + 1) == json_end().skip(1) by {
            assert(v@.skip(j4 + 1) == qtail);
            assert(v@.skip(i5 as int) =~= qtail.skip(json_tail_lit().len() - 1));
            assert(qtail.skip(json_tail_lit().len() - 1) =~= escape(logo_svg_spec()) + json_end());
            assert(json_end()[0] == '"');
            assert(escape(logo_svg_spec()) + json_end() =~= escape(logo_svg_spec()) + seq!['"']
                + json_end().skip(1));
            assert(v@.skip(i5 as int) == escape(logo_svg_spec()) + seq!['"'] + json_end().skip(1));
            lemma_escape_unambiguous(logo_svg_spec(), json_end().skip(1), logo@, v@.skip(j6 + 1));
        };
    }
    let logo_str = string_from_chars(&logo);
    let expected_logo = String::from_str(logo_svg_text());
    if !(logo_str == expected_logo) {
        proof {
            assert forall|e: bool, m: Seq<char>| s@ == json_of(e, m) implies false by {
                assert(logo@ == logo_svg_spec());
            };
        }
        return None;
    }
    let i7 = match expect_lit(&v, j6, "\"}") {
        Some(j) => j,
        None => {
            proof {
                assert forall|e: bool, m: Seq<char>| s@ == json_of(e, m) implies false by {
                    assert(v@.skip(j6 + 1) == json_end().skip(1));
                    assert(v@.len() == j6 + 2);
                    assert(v@.subrange(j6 as int, j6 + 2) =~= json_end());
                };
            }
            return None;
        },
    };
    if i7 != v.len() {
        proof {
            assert forall|e: bool, m: Seq<char>| s@ == json_of(e, m) implies false by {
                assert(v@.skip(j6 + 1) == json_end().skip(1));
                assert(v@.len() == j6 + 2);
            };
        }
        return None;
    }
    let msg_str = string_from_chars(&msg);
    let mut resp = compose_success(msg_str);
    if is_err {
        resp.is_error = true;
    }
    proof {
        assert(logo@ == logo_svg_spec());
        assert(v@.subrange(i5 as int, j6 as int) == escape(logo_svg_spec()));
        assert(v@ =~= v@.subrange(0, i1 as int) + v@.subrange(i1 as int, i2 as int) + v@.subrange(
            i2 as int,
            i3 as int,
        ) + v@.subrange(i3 as int, j4 as int) + v@.subrange(j4 as int, i5 as int) + v@.subrange(
            i5 as int,
            j6 as int,
        ) + v@.subrange(j6 as int, i7 as int));
        assert(json_of(is_err, msg@) =~= json_head() + bool_text(is_err) + json_mid() + escape(
            msg@,
        ) + json_tail_lit() + escape(logo_svg_spec()) + json_end());
        assert(s@ =~= json_of(is_err, msg@));
        assert forall|e: bool, m: Seq<char>| s@ == json_of(e, m) implies resp.is_error == e
            && resp.message@ == m by {
            assert(e == is_err);
            assert(m == msg@);
        };
    }
    Some(resp)
}

} // verus!
