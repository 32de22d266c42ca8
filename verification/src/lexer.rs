//! The lexer: turns a source string into an ordered sequence of tokens.
//!
//! Lexing is total: every maximal run of characters that are neither
//! whitespace nor a parenthesis becomes exactly one token, and a word that is
//! not a reserved spelling, an integer literal or a float literal falls back
//! to an identifier, so no input string is ever rejected.

use vstd::prelude::*;

verus! {

/// One lexical token. Float literals carry the IEEE-754 binary64 bit pattern
/// of their numeric value.
#[derive(Debug, PartialEq)]
pub enum Token {
    LeftBrace,
    RightBrace,
    Let,
    Lambda,
    If,
    Variable(String),
    Int(i64),
    Float(u64),
    True,
    False,
    Equal,
    Add,
    Sub,
    Mul,
    Div,
}

/// The mathematical model of a token: identifiers are character sequences.
pub enum SpecToken {
    LeftBrace,
    RightBrace,
    Let,
    Lambda,
    If,
    Variable(Seq<char>),
    Int(i64),
    Float(u64),
    True,
    False,
    Equal,
    Add,
    Sub,
    Mul,
    Div,
}

impl DeepView for Token {
    type V = SpecToken;

    open spec fn deep_view(&self) -> SpecToken {
        match self {
            Token::LeftBrace => SpecToken::LeftBrace,
            Token::RightBrace => SpecToken::RightBrace,
            Token::Let => SpecToken::Let,
            Token::Lambda => SpecToken::Lambda,
            Token::If => SpecToken::If,
            Token::Variable(s) => SpecToken::Variable(s@),
            Token::Int(n) => SpecToken::Int(*n),
            Token::Float(b) => SpecToken::Float(*b),
            Token::True => SpecToken::True,
            Token::False => SpecToken::False,
            Token::Equal => SpecToken::Equal,
            Token::Add => SpecToken::Add,
            Token::Sub => SpecToken::Sub,
            Token::Mul => SpecToken::Mul,
            Token::Div => SpecToken::Div,
        }
    }
}

impl Clone for Token {
    fn clone(&self) -> (res: Self)
        ensures
            res == *self,
    {
        match self {
            Token::LeftBrace => Token::LeftBrace,
            Token::RightBrace => Token::RightBrace,
            Token::Let => Token::Let,
            Token::Lambda => Token::Lambda,
            Token::If => Token::If,
            Token::Variable(s) => Token::Variable(s.clone()),
            Token::Int(n) => Token::Int(*n),
            Token::Float(b) => Token::Float(*b),
            Token::True => Token::True,
            Token::False => Token::False,
            Token::Equal => Token::Equal,
            Token::Add => Token::Add,
            Token::Sub => Token::Sub,
            Token::Mul => Token::Mul,
            Token::Div => Token::Div,
        }
    }
}

/// The whitespace characters that separate words.
pub open spec fn is_space(c: char) -> bool {
    c == ' ' || c == '\t' || c == '\n'
}

/// Splitting a source string into words, from position `i` with a pending
/// word buffer `buf`: parentheses are words of their own and flush the
/// buffer, whitespace flushes the buffer, every other character extends it.
/// The buffer is flushed once more when the input ends.
pub open spec fn split_from(s: Seq<char>, i: int, buf: Seq<char>) -> Seq<Seq<char>>
    decreases s.len() - i,
{
    if i < 0 || i >= s.len() {
        if buf.len() > 0 {
            seq![buf]
        } else {
            Seq::empty()
        }
    } else {
        let c = s[i];
        if c == '(' || c == ')' {
            if buf.len() > 0 {
                seq![buf, seq![c]] + split_from(s, i + 1, Seq::empty())
            } else {
                seq![seq![c]] + split_from(s, i + 1, Seq::empty())
            }
        } else if is_space(c) {
            if buf.len() > 0 {
                seq![buf] + split_from(s, i + 1, Seq::empty())
            } else {
                split_from(s, i + 1, Seq::empty())
            }
        } else {
            split_from(s, i + 1, buf.push(c))
        }
    }
}

/// The words of a source string, in order.
pub open spec fn split_spec(s: Seq<char>) -> Seq<Seq<char>> {
    split_from(s, 0, Seq::empty())
}

/// Relies on `String::push`: appends one character to the string.
#[verifier::external_body]
fn push_char(s: &mut String, c: char)
    ensures
        final(s)@ == old(s)@.push(c),
{
    s.push(c);
}

/// Splits a source string into its words: each parenthesis is a word of its
/// own, and each maximal run of characters that are neither whitespace nor a
/// parenthesis is a word.
pub fn split_program(program: &String) -> (ret: Vec<String>)
    ensures
        ret.deep_view() == split_spec(program@),
{
    let mut ret: Vec<String> = Vec::new();
    let mut buf = String::new();
    let mut buf_len: usize = 0;
    let text = program.as_str();
    let n = text.unicode_len();
    let mut i: usize = 0;
    proof {
        assert(ret.deep_view() + split_from(program@, 0, buf@) =~= split_spec(program@));
    }
    while i < n
        invariant
            n == program@.len(),
            text@ == program@,
            i <= n,
            buf_len == buf@.len(),
            buf_len <= i,
            split_spec(program@) == ret.deep_view() + split_from(program@, i as int, buf@),
        decreases n - i,
    {
        let c = text.get_char(i);
        let ghost prev_ret = ret.deep_view();
        let ghost prev_buf = buf@;
        proof {
            if buf_len == 0 {
                assert(buf@ =~= Seq::<char>::empty());
            }
        }
        if c == '(' || c == ')' {
            if buf_len > 0 {
                ret.push(buf);
                buf = String::new();
                buf_len = 0;
            }
            let mut paren = String::new();
            push_char(&mut paren, c);
            ret.push(paren);
            proof {
                assert(paren@ =~= seq![c]);
                if prev_buf.len() > 0 {
                    assert(ret.deep_view() =~= prev_ret + seq![prev_buf, seq![c]]);
                } else {
                    assert(ret.deep_view() =~= prev_ret + seq![seq![c]]);
                }
                assert(split_spec(program@) =~= ret.deep_view() + split_from(
                    program@,
                    i + 1,
                    buf@,
                ));
            }
        } else if c == ' ' || c == '\t' || c == '\n' {
            if buf_len > 0 {
                ret.push(buf);
                buf = String::new();
                buf_len = 0;
            }
            proof {
                if prev_buf.len() > 0 {
                    assert(ret.deep_view() =~= prev_ret + seq![prev_buf]);
                } else {
                    assert(ret.deep_view() =~= prev_ret);
                }
                assert(split_spec(program@) =~= ret.deep_view() + split_from(
                    program@,
                    i + 1,
                    buf@,
                ));
            }
        } else {
            push_char(&mut buf, c);
            buf_len = buf_len + 1;
            proof {
                assert(buf@ == prev_buf.push(c));
                assert(split_spec(program@) =~= ret.deep_view() + split_from(
                    program@,
                    i + 1,
                    buf@,
                ));
            }
        }
        i = i + 1;
    }
    if buf_len > 0 {
        ret.push(buf);
        proof {
            assert(split_spec(program@) =~= ret.deep_view());
        }
    } else {
        proof {
            assert(split_spec(program@) =~= ret.deep_view());
        }
    }
    ret
}


/// A decimal digit.
pub open spec fn is_digit(c: char) -> bool {
    48 <= c as u32 && c as u32 <= 57
}

/// The numeric value of a decimal digit.
pub open spec fn digit_val(c: char) -> int {
    (c as u32) as int - 48
}

/// Every character of `s` is a decimal digit.
pub open spec fn all_digits(s: Seq<char>) -> bool {
    forall|j: int| 0 <= j < s.len() ==> is_digit(#[trigger] s[j])
}

/// The value of a digit string read in base ten.
pub open spec fn digits_val(s: Seq<char>) -> int
    decreases s.len(),
{
    if s.len() == 0 {
        0
    } else {
        digits_val(s.drop_last()) * 10 + digit_val(s.last())
    }
}

/// Strips one leading sign: returns whether the word is negated and the rest.
pub open spec fn strip_sign(w: Seq<char>) -> (bool, Seq<char>) {
    if w.len() > 0 && w[0] == '-' {
        (true, w.skip(1))
    } else if w.len() > 0 && w[0] == '+' {
        (false, w.skip(1))
    } else {
        (false, w)
    }
}

/// The word is an optional sign followed by at least one digit, and its value
/// fits a 64-bit signed integer.
pub open spec fn is_int_word(w: Seq<char>) -> bool {
    let sr = strip_sign(w);
    let d = sr.1;
    d.len() > 0 && all_digits(d) && (if sr.0 {
        digits_val(d) <= 0x8000_0000_0000_0000
    } else {
        digits_val(d) <= 0x7fff_ffff_ffff_ffff
    })
}

/// The value of an integer word.
pub open spec fn int_word_val(w: Seq<char>) -> i64 {
    let sr = strip_sign(w);
    if sr.0 {
        (-digits_val(sr.1)) as i64
    } else {
        digits_val(sr.1) as i64
    }
}

/// A digit string is worth at least zero.
proof fn lemma_digits_val_nonneg(s: Seq<char>)
    requires
        all_digits(s),
    ensures
        digits_val(s) >= 0,
    decreases s.len(),
{
    if s.len() > 0 {
        assert(all_digits(s.drop_last()));
        lemma_digits_val_nonneg(s.drop_last());
    }
}

/// Extending a digit string never lowers its value.
proof fn lemma_digits_val_mono(s: Seq<char>, k: int)
    requires
        all_digits(s),
        0 <= k <= s.len(),
    ensures
        digits_val(s) >= digits_val(s.take(k)),
    decreases s.len() - k,
{
    if k < s.len() {
        assert(s.take(k + 1).drop_last() =~= s.take(k));
        assert(s.take(k + 1).last() == s[k]);
        assert(all_digits(s.take(k)));
        lemma_digits_val_nonneg(s.take(k));
        assert(digits_val(s.take(k + 1)) == digits_val(s.take(k)) * 10 + digit_val(s[k]));
        assert(digits_val(s.take(k)) * 10 >= digits_val(s.take(k)));
        lemma_digits_val_mono(s, k + 1);
    } else {
        assert(s.take(k) =~= s);
    }
}

/// Reads an integer literal: an optional sign followed by decimal digits.
/// Returns `None` when the word has another shape or the value does not fit
/// a 64-bit signed integer.
pub fn parse_int(word: &String) -> (r: Option<i64>)
    ensures
        r.is_some() <==> is_int_word(word@),
        r matches Some(v) ==> v == int_word_val(word@),
{
    let st = word.as_str();
    let n = st.unicode_len();
    if n == 0 {
        return None;
    }
    let c0 = st.get_char(0);
    let neg = c0 == '-';
    let start: usize = if c0 == '-' || c0 == '+' {
        1
    } else {
        0
    };
    let ghost d = strip_sign(word@).1;
    proof {
        assert(d =~= word@.skip(start as int));
    }
    if start >= n {
        return None;
    }
    let limit: u64 = if neg {
        0x8000_0000_0000_0000
    } else {
        0x7fff_ffff_ffff_ffff
    };
    let mut acc: u64 = 0;
    let mut i: usize = start;
    while i < n
        invariant
            word@.len() == n,
            st@ == word@,
            d == word@.skip(start as int),
            d == strip_sign(word@).1,
            strip_sign(word@).0 == neg,
            start <= i <= n,
            start <= 1,
            d.len() == n - start,
            all_digits(d.take(i - start)),
            acc == digits_val(d.take(i - start)),
            acc <= limit,
            limit == if neg {
                0x8000_0000_0000_0000u64
            } else {
                0x7fff_ffff_ffff_ffffu64
            },
        decreases n - i,
    {
        let c = st.get_char(i);
        let cv = c as u32;
        if cv < 48 || cv > 57 {
            proof {
                assert(d[i - start] == word@[i as int]);
                assert(!is_digit(d[i - start]));
                assert(!all_digits(d));
            }
            return None;
        }
        let dd: u64 = (cv - 48) as u64;
        let wide: u128 = (acc as u128) * 10 + (dd as u128);
        proof {
            assert(d.take(i - start + 1).drop_last() =~= d.take(i - start));
            assert(d.take(i - start + 1).last() == d[i - start]);
            assert(digits_val(d.take(i - start + 1)) == acc * 10 + dd);
        }
        if wide > limit as u128 {
            proof {
                if all_digits(d) {
                    lemma_digits_val_mono(d, i - start + 1);
                    assert(digits_val(d) > limit);
                }
            }
            return None;
        }
        acc = wide as u64;
        i = i + 1;
    }
    proof {
        assert(d.take(n - start) =~= d);
    }
    if neg {
        if acc == 0x8000_0000_0000_0000 {
            Some(i64::MIN)
        } else {
            Some(-(acc as i64))
        }
    } else {
        Some(acc as i64)
    }
}


/// An exponent marker inside a float literal.
pub open spec fn is_exp_char(c: char) -> bool {
    c == 'e' || c == 'E'
}

/// Case-insensitive match of one character against a lowercase ASCII letter.
pub open spec fn char_ci(c: char, lo: char) -> bool {
    c == lo || (c as u32) + 32 == (lo as u32)
}

/// A spelling of infinity: `inf` or `infinity`, in any letter case.
pub open spec fn is_inf_word(r: Seq<char>) -> bool {
    (r.len() == 3 && char_ci(r[0], 'i') && char_ci(r[1], 'n') && char_ci(r[2], 'f')) || (r.len()
        == 8 && char_ci(r[0], 'i') && char_ci(r[1], 'n') && char_ci(r[2], 'f') && char_ci(
        r[3],
        'i',
    ) && char_ci(r[4], 'n') && char_ci(r[5], 'i') && char_ci(r[6], 't') && char_ci(r[7], 'y'))
}

/// A spelling of a quiet not-a-number: `nan`, in any letter case.
pub open spec fn is_nan_word(r: Seq<char>) -> bool {
    r.len() == 3 && char_ci(r[0], 'n') && char_ci(r[1], 'a') && char_ci(r[2], 'n')
}

/// How many decimal points a character sequence holds.
pub open spec fn dot_count(m: Seq<char>) -> int
    decreases m.len(),
{
    if m.len() == 0 {
        0
    } else {
        dot_count(m.drop_last()) + if m.last() == '.' {
            1int
        } else {
            0int
        }
    }
}

/// At least one character of `m` is a decimal digit.
pub open spec fn has_digit(m: Seq<char>) -> bool {
    exists|j: int| 0 <= j < m.len() && is_digit(#[trigger] m[j])
}

/// Every character of `m` is a decimal digit or a decimal point.
pub open spec fn all_digit_or_dot(m: Seq<char>) -> bool {
    forall|j: int| 0 <= j < m.len() ==> is_digit(#[trigger] m[j]) || m[j] == '.'
}

/// A float mantissa: digits with at most one decimal point, and at least one
/// digit on some side of it.
pub open spec fn is_mantissa(m: Seq<char>) -> bool {
    all_digit_or_dot(m) && dot_count(m) <= 1 && has_digit(m)
}

/// The index of the first exponent marker in `r`, or `r.len()` if there is
/// none.
pub open spec fn find_exp(r: Seq<char>) -> int
    decreases r.len(),
{
    if r.len() == 0 {
        0
    } else if is_exp_char(r[0]) {
        0
    } else {
        1 + find_exp(r.skip(1))
    }
}

proof fn lemma_find_exp(r: Seq<char>)
    ensures
        0 <= find_exp(r) <= r.len(),
        find_exp(r) < r.len() ==> is_exp_char(r[find_exp(r)]),
        forall|j: int| 0 <= j < find_exp(r) ==> !is_exp_char(#[trigger] r[j]),
    decreases r.len(),
{
    if r.len() > 0 && !is_exp_char(r[0]) {
        lemma_find_exp(r.skip(1));
        assert forall|j: int| 0 <= j < find_exp(r) implies !is_exp_char(#[trigger] r[j]) by {
            if j > 0 {
                assert(r[j] == r.skip(1)[j - 1]);
            }
        }
    }
}

/// An exponent part: an optional sign followed by at least one digit.
pub open spec fn is_exp_digits(t: Seq<char>) -> bool {
    let d = strip_sign(t).1;
    d.len() > 0 && all_digits(d)
}

/// A number spelling: a mantissa, optionally followed by an exponent marker
/// and an exponent part.
pub open spec fn is_number_word(r: Seq<char>) -> bool {
    let k = find_exp(r);
    if k == r.len() {
        is_mantissa(r)
    } else {
        is_mantissa(r.take(k)) && is_exp_digits(r.skip(k + 1))
    }
}

/// A signed number spelling, with no infinity or not-a-number keyword.
pub open spec fn is_plain_number(w: Seq<char>) -> bool {
    is_number_word(strip_sign(w).1)
}

/// A float literal: an optional sign followed by an infinity spelling, a
/// not-a-number spelling, or a number.
pub open spec fn is_float_word(w: Seq<char>) -> bool {
    let r = strip_sign(w).1;
    is_inf_word(r) || is_nan_word(r) || is_number_word(r)
}

/// The IEEE-754 binary64 bit pattern of a float literal: fixed encodings for
/// the infinity and not-a-number keywords, and the softly computed pattern
/// named by `float_bits_of` for number spellings.
pub open spec fn float_bits_spec(w: Seq<char>) -> u64 {
    let sr = strip_sign(w);
    if is_inf_word(sr.1) {
        if sr.0 {
            0xFFF0_0000_0000_0000u64
        } else {
            0x7FF0_0000_0000_0000u64
        }
    } else if is_nan_word(sr.1) {
        if sr.0 {
            0xFFF8_0000_0000_0000u64
        } else {
            0x7FF8_0000_0000_0000u64
        }
    } else {
        crate::float_bits::float_bits_of(w)
    }
}

/// Case-insensitive comparison of one character with a lowercase letter.
fn char_ci_eq(c: char, lo: char) -> (res: bool)
    ensures
        res == char_ci(c, lo),
{
    c == lo || (c as u64) + 32 == (lo as u64)
}

/// Reads a float literal: an optional sign followed by an infinity spelling,
/// a not-a-number spelling, or a decimal number with an optional exponent.
/// Returns the IEEE-754 binary64 bit pattern of its value, or `None` when
/// the word has another shape.
#[verifier::loop_isolation(false)]
#[verifier::rlimit(100)]
pub fn parse_float(word: &String) -> (r: Option<u64>)
    ensures
        r.is_some() <==> is_float_word(word@),
        r matches Some(b) ==> b == float_bits_spec(word@),
{
    let st = word.as_str();
    let n = st.unicode_len();
    if n == 0 {
        return None;
    }
    let c0 = st.get_char(0);
    let neg = c0 == '-';
    let start: usize = if c0 == '-' || c0 == '+' {
        1
    } else {
        0
    };
    let ghost r = strip_sign(word@).1;
    let m = n - start;
    proof {
        assert(r =~= word@.skip(start as int));
    }
    if m == 3 {
        let a0 = st.get_char(start);
        let a1 = st.get_char(start + 1);
        let a2 = st.get_char(start + 2);
        if char_ci_eq(a0, 'i') && char_ci_eq(a1, 'n') && char_ci_eq(a2, 'f') {
            return Some(
                if neg {
                    0xFFF0_0000_0000_0000
                } else {
                    0x7FF0_0000_0000_0000
                },
            );
        }
        if char_ci_eq(a0, 'n') && char_ci_eq(a1, 'a') && char_ci_eq(a2, 'n') {
            return Some(
                if neg {
                    0xFFF8_0000_0000_0000
                } else {
                    0x7FF8_0000_0000_0000
                },
            );
        }
    }
    if m == 8 {
        let a0 = st.get_char(start);
        let a1 = st.get_char(start + 1);
        let a2 = st.get_char(start + 2);
        let a3 = st.get_char(start + 3);
        let a4 = st.get_char(start + 4);
        let a5 = st.get_char(start + 5);
        let a6 = st.get_char(start + 6);
        let a7 = st.get_char(start + 7);
        if char_ci_eq(a0, 'i') && char_ci_eq(a1, 'n') && char_ci_eq(a2, 'f') && char_ci_eq(
            a3,
            'i',
        ) && char_ci_eq(a4, 'n') && char_ci_eq(a5, 'i') && char_ci_eq(a6, 't') && char_ci_eq(
            a7,
            'y',
        ) {
            return Some(
                if neg {
                    0xFFF0_0000_0000_0000
                } else {
                    0x7FF0_0000_0000_0000
                },
            );
        }
    }
    // Find the first exponent marker, if any.
    let mut i: usize = start;
    let mut found = false;
    while !found && i < n
        invariant
            word@.len() == n,
            st@ == word@,
            start <= i <= n,
            start <= 1,
            forall|j: int| start <= j < i ==> !is_exp_char(#[trigger] word@[j]),
            found ==> i < n && is_exp_char(word@[i as int]),
        decreases n - i + (if found {
            0int
        } else {
            1int
        }),
    {
        let c = st.get_char(i);
        if c == 'e' || c == 'E' {
            found = true;
        } else {
            i = i + 1;
        }
    }
    let k = i;
    proof {
        lemma_find_exp(r);
        assert(r.len() == n - start);
        assert forall|j: int| 0 <= j < k - start implies !is_exp_char(#[trigger] r[j]) by {
            assert(r[j] == word@[j + start]);
        }
        if found {
            assert(r[k - start] == word@[k as int]);
            assert(find_exp(r) == k - start) by {
                if find_exp(r) < k - start {
                    assert(!is_exp_char(r[find_exp(r)]));
                } else if find_exp(r) > k - start {
                    assert(!is_exp_char(r[k - start]));
                }
            }
        } else {
            assert(find_exp(r) == r.len()) by {
                if find_exp(r) < r.len() {
                    assert(!is_exp_char(r[find_exp(r)]));
                }
            }
        }
    }
    // Scan the mantissa.
    let ghost mant = r.take(k - start);
    let mut j: usize = start;
    let mut dots: u64 = 0;
    let mut saw_digit = false;
    while j < k
        invariant
            word@.len() == n,
            st@ == word@,
            r == strip_sign(word@).1,
            r == word@.skip(start as int),
            mant == r.take(k - start),
            start <= j <= k <= n,
            start <= 1,
            dots == dot_count(r.take(j - start)),
            dots <= j,
            saw_digit <==> has_digit(r.take(j - start)),
            forall|jj: int|
                0 <= jj < j - start ==> is_digit(#[trigger] r[jj]) || r[jj] == '.',
        decreases k - j,
    {
        let c = st.get_char(j);
        let cv = c as u32;
        proof {
            assert(r[j - start] == word@[j as int]);
            assert(r.take(j - start + 1).drop_last() =~= r.take(j - start));
            assert(r.take(j - start + 1).last() == r[j - start]);
        }
        if 48 <= cv && cv <= 57 {
            saw_digit = true;
            proof {
                assert(is_digit(r[j - start]));
                assert(r.take(j - start + 1)[j - start] == r[j - start]);
                assert(has_digit(r.take(j - start + 1)));
            }
        } else if c == '.' {
            dots = dots + 1;
            proof {
                if has_digit(r.take(j - start + 1)) {
                    let jj = choose|jj: int|
                        0 <= jj < j - start + 1 && is_digit(#[trigger] r.take(j - start + 1)[jj]);
                    assert(is_digit(r[jj]));
                    assert(r.take(j - start)[jj] == r[jj]);
                    assert(has_digit(r.take(j - start)));
                }
                if has_digit(r.take(j - start)) {
                    let jj = choose|jj: int|
                        0 <= jj < j - start && is_digit(#[trigger] r.take(j - start)[jj]);
                    assert(is_digit(r.take(j - start + 1)[jj]));
                }
            }
        } else {
            proof {
                assert(!is_digit(r[j - start]) && r[j - start] != '.');
                if found {
                    assert(!is_mantissa(r.take(find_exp(r))));
                } else {
                    assert(!is_mantissa(r));
                    assert(r.take(k - start) =~= r);
                }
            }
            return None;
        }
        j = j + 1;
    }
    proof {
        assert(mant =~= r.take(k - start));
        if has_digit(mant) != saw_digit {
            if has_digit(mant) {
                let jj = choose|jj: int| 0 <= jj < mant.len() && is_digit(#[trigger] mant[jj]);
                assert(is_digit(r[jj]));
                assert(r.take(k - start)[jj] == r[jj]);
                assert(has_digit(r.take(k - start)));
            }
        }
    }
    if dots > 1 || !saw_digit {
        proof {
            if found {
                assert(!is_mantissa(r.take(find_exp(r))));
            } else {
                assert(r.take(k - start) =~= r);
                assert(!is_mantissa(r));
            }
        }
        return None;
    }
    // Scan the exponent part, if there is one.
    if found {
        let ghost t = r.skip(k - start + 1);
        let e0: usize = k + 1;
        if e0 >= n {
            proof {
                assert(t.len() == 0);
                assert(strip_sign(t).1.len() == 0);
            }
            return None;
        }
        let ce = st.get_char(e0);
        let es: usize = if ce == '-' || ce == '+' {
            e0 + 1
        } else {
            e0
        };
        let ghost ed = strip_sign(t).1;
        proof {
            assert(t[0] == word@[e0 as int]);
            assert(ed =~= word@.skip(es as int));
        }
        if es >= n {
            proof {
                assert(ed.len() == 0);
            }
            return None;
        }
        let mut q: usize = es;
        while q < n
            invariant
                word@.len() == n,
                st@ == word@,
                r == strip_sign(word@).1,
                r == word@.skip(start as int),
                ed == word@.skip(es as int),
                ed == strip_sign(r.skip(k - start + 1)).1,
                es <= q <= n,
                k < e0 <= es <= e0 + 1,
                forall|jj: int| 0 <= jj < q - es ==> is_digit(#[trigger] ed[jj]),
            decreases n - q,
        {
            let c = st.get_char(q);
            let cv = c as u32;
            if cv < 48 || cv > 57 {
                proof {
                    assert(ed[q - es] == word@[q as int]);
                    assert(!is_digit(ed[q - es]));
                    assert(!all_digits(ed));
                }
                return None;
            }
            proof {
                assert(ed[q - es] == word@[q as int]);
            }
            q = q + 1;
        }
        proof {
            assert(ed.len() == n - es);
            assert(all_digits(ed));
            assert(is_exp_digits(r.skip(k - start + 1)));
            assert(is_mantissa(r.take(find_exp(r))));
            assert(is_number_word(r));
            assert(is_plain_number(word@));
        }
    } else {
        proof {
            assert(r.take(k - start) =~= r);
            assert(is_mantissa(r));
            assert(is_number_word(r));
            assert(is_plain_number(word@));
        }
    }
    proof {
        assert(mant.len() > 0);
        assert(is_digit(mant[0]) || mant[0] == '.');
        assert(!char_ci(r[0], 'i'));
        assert(!char_ci(r[0], 'n'));
        assert(!is_inf_word(r));
        assert(!is_nan_word(r));
    }
    let bits = crate::float_bits::parse_float_bits(st);
    match bits {
        Some(b) => Some(b),
        // A word of plain number shape is always read successfully.
        None => vstd::pervasive::unreached(),
    }
}


/// What token one word becomes: reserved spellings first, then integer
/// literals, then float literals, and identifiers as the fallback.
pub open spec fn classify(w: Seq<char>) -> SpecToken {
    if w == seq!['('] {
        SpecToken::LeftBrace
    } else if w == seq![')'] {
        SpecToken::RightBrace
    } else if w == seq!['l', 'e', 't'] {
        SpecToken::Let
    } else if w == seq!['l', 'a', 'm', 'b', 'd', 'a'] {
        SpecToken::Lambda
    } else if w == seq!['i', 'f'] {
        SpecToken::If
    } else if w == seq!['='] {
        SpecToken::Equal
    } else if w == seq!['+'] {
        SpecToken::Add
    } else if w == seq!['-'] {
        SpecToken::Sub
    } else if w == seq!['*'] {
        SpecToken::Mul
    } else if w == seq!['/'] {
        SpecToken::Div
    } else if w == seq!['#', 't'] {
        SpecToken::True
    } else if w == seq!['#', 'f'] {
        SpecToken::False
    } else if is_int_word(w) {
        SpecToken::Int(int_word_val(w))
    } else if is_float_word(w) {
        SpecToken::Float(float_bits_spec(w))
    } else {
        SpecToken::Variable(w)
    }
}

/// The token sequence of a source string: its words, classified in order.
pub open spec fn lex_spec(s: Seq<char>) -> Seq<SpecToken> {
    split_spec(s).map_values(|w: Seq<char>| classify(w))
}

/// Turns one word into its token.
fn classify_word(word: String) -> (t: Token)
    ensures
        t.deep_view() == classify(word@),
{
    let st = word.as_str();
    let n = st.unicode_len();
    if n == 1 {
        let c = st.get_char(0);
        if c == '(' {
            proof {
                assert(word@ =~= seq!['(']);
            }
            return Token::LeftBrace;
        }
        if c == ')' {
            proof {
                assert(word@ =~= seq![')']);
            }
            return Token::RightBrace;
        }
        if c == '=' {
            proof {
                assert(word@ =~= seq!['=']);
            }
            return Token::Equal;
        }
        if c == '+' {
            proof {
                assert(word@ =~= seq!['+']);
            }
            return Token::Add;
        }
        if c == '-' {
            proof {
                assert(word@ =~= seq!['-']);
            }
            return Token::Sub;
        }
        if c == '*' {
            proof {
                assert(word@ =~= seq!['*']);
            }
            return Token::Mul;
        }
        if c == '/' {
            proof {
                assert(word@ =~= seq!['/']);
            }
            return Token::Div;
        }
    }
    if n == 2 {
        let c0 = st.get_char(0);
        let c1 = st.get_char(1);
        if c0 == 'i' && c1 == 'f' {
            proof {
                assert(word@ =~= seq!['i', 'f']);
            }
            return Token::If;
        }
        if c0 == '#' && c1 == 't' {
            proof {
                assert(word@ =~= seq!['#', 't']);
            }
            return Token::True;
        }
        if c0 == '#' && c1 == 'f' {
            proof {
                assert(word@ =~= seq!['#', 'f']);
            }
            return Token::False;
        }
    }
    if n == 3 {
        let c0 = st.get_char(0);
        let c1 = st.get_char(1);
        let c2 = st.get_char(2);
        if c0 == 'l' && c1 == 'e' && c2 == 't' {
            proof {
                assert(word@ =~= seq!['l', 'e', 't']);
            }
            return Token::Let;
        }
    }
    if n == 6 {
        let c0 = st.get_char(0);
        let c1 = st.get_char(1);
        let c2 = st.get_char(2);
        let c3 = st.get_char(3);
        let c4 = st.get_char(4);
        let c5 = st.get_char(5);
        if c0 == 'l' && c1 == 'a' && c2 == 'm' && c3 == 'b' && c4 == 'd' && c5 == 'a' {
            proof {
                assert(word@ =~= seq!['l', 'a', 'm', 'b', 'd', 'a']);
            }
            return Token::Lambda;
        }
    }
    match parse_int(&word) {
        Some(v) => {
            return Token::Int(v);
        },
        None => {},
    }
    match parse_float(&word) {
        Some(b) => {
            return Token::Float(b);
        },
        None => {},
    }
    Token::Variable(word)
}

/// The lexer: every input string yields a token sequence, the words of the
/// source classified in order, so lexing never fails.
pub fn lexer(program: &String) -> (tokens: Vec<Token>)
    ensures
        tokens.deep_view() == lex_spec(program@),
{
    let words = split_program(program);
    let mut tokens: Vec<Token> = Vec::new();
    let ghost word_views = words.deep_view();
    let mut i: usize = 0;
    while i < words.len()
        invariant
            word_views == words.deep_view(),
            word_views == split_spec(program@),
            i <= words.len(),
            words@.len() == word_views.len(),
            tokens.deep_view().len() == i,
            forall|j: int|
                0 <= j < i ==> tokens.deep_view()[j] == classify(#[trigger] word_views[j]),
        decreases words.len() - i,
    {
        let w = words[i].clone();
        proof {
            assert(w@ == word_views[i as int]);
        }
        let t = classify_word(w);
        tokens.push(t);
        i = i + 1;
    }
    proof {
        assert(tokens.deep_view() =~= lex_spec(program@));
    }
    tokens
}

} // verus!
