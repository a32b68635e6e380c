//! Small text utilities: trimming and case folding of what users type, and
//! decimal rendering of counters and identifiers.

use crate::error::LedgerError;
use vstd::prelude::*;
use vstd::string::*;

verus! {

/// The character of one decimal digit.
pub open spec fn digit_char(d: int) -> char {
    if d == 0 {
        '0'
    } else if d == 1 {
        '1'
    } else if d == 2 {
        '2'
    } else if d == 3 {
        '3'
    } else if d == 4 {
        '4'
    } else if d == 5 {
        '5'
    } else if d == 6 {
        '6'
    } else if d == 7 {
        '7'
    } else if d == 8 {
        '8'
    } else {
        '9'
    }
}

/// The decimal digits of `n`, most significant first, without leading zeros.
pub open spec fn decimal(n: nat) -> Seq<char>
    decreases n,
{
    if n < 10 {
        seq![digit_char(n as int)]
    } else {
        decimal(n / 10).push(digit_char((n % 10) as int))
    }
}

/// One decimal digit as text.
pub fn digit_text(d: u8) -> (r: &'static str)
    requires
        d < 10,
    ensures
        r@ == seq![digit_char(d as int)],
{
    proof {
        reveal_strlit("0");
        reveal_strlit("1");
        reveal_strlit("2");
        reveal_strlit("3");
        reveal_strlit("4");
        reveal_strlit("5");
        reveal_strlit("6");
        reveal_strlit("7");
        reveal_strlit("8");
        reveal_strlit("9");
    }
    let r = if d == 0 {
        "0"
    } else if d == 1 {
        "1"
    } else if d == 2 {
        "2"
    } else if d == 3 {
        "3"
    } else if d == 4 {
        "4"
    } else if d == 5 {
        "5"
    } else if d == 6 {
        "6"
    } else if d == 7 {
        "7"
    } else if d == 8 {
        "8"
    } else {
        "9"
    };
    assert(r@ =~= seq![digit_char(d as int)]);
    r
}

/// Appends the decimal digits of `n` to `out`.
pub fn push_decimal(out: &mut String, n: u64)
    ensures
        final(out)@ == old(out)@ + decimal(n as nat),
    decreases n,
{
    if n >= 10 {
        push_decimal(out, n / 10);
    }
    let d = (n % 10) as u8;
    out.append(digit_text(d));
    assert(out@ =~= old(out)@ + decimal(n as nat));
}

/// A group identifier: the prefix of its kind followed by the millisecond
/// reading of the clock.
pub fn gen_group_id(prefix: &str, millis: u64) -> (id: String)
    ensures
        id@ == prefix@ + decimal(millis as nat),
{
    let mut id = String::from_str(prefix);
    push_decimal(&mut id, millis);
    id
}

/// Whether a character is white space: the characters with the Unicode
/// property `White_Space`.
pub open spec fn is_space(c: char) -> bool {
    let u = c as u32;
    ||| 0x09 <= u <= 0x0d
    ||| u == 0x20
    ||| u == 0x85
    ||| u == 0xa0
    ||| u == 0x1680
    ||| 0x2000 <= u <= 0x200a
    ||| u == 0x2028
    ||| u == 0x2029
    ||| u == 0x202f
    ||| u == 0x205f
    ||| u == 0x3000
}

/// The text without its leading white space.
pub open spec fn without_leading(s: Seq<char>) -> Seq<char>
    decreases s.len(),
{
    if s.len() > 0 && is_space(s[0]) {
        without_leading(s.drop_first())
    } else {
        s
    }
}

/// The text without its trailing white space.
pub open spec fn without_trailing(s: Seq<char>) -> Seq<char>
    decreases s.len(),
{
    if s.len() > 0 && is_space(s.last()) {
        without_trailing(s.drop_last())
    } else {
        s
    }
}

/// The text without leading and trailing white space.
pub open spec fn trimmed(s: Seq<char>) -> Seq<char> {
    without_trailing(without_leading(s))
}

/// The text in upper case, as the standard library folds it.
pub uninterp spec fn uppercase_of(s: Seq<char>) -> Seq<char>;

/// `str::trim` of the standard library: the slice without leading and
/// trailing white space, where white space is what the Unicode property
/// `White_Space` says.
#[verifier::external_body]
pub(crate) fn trim(s: &str) -> (r: &str)
    ensures
        r@ == trimmed(s@),
{
    s.trim()
}

/// `str::to_uppercase` of the standard library. Nothing is claimed of the
/// result but that it depends on the text alone.
#[verifier::external_body]
pub(crate) fn to_upper(s: &str) -> (r: String)
    ensures
        r@ == uppercase_of(s@),
{
    s.to_uppercase()
}

/// Whether two texts are the same.
pub fn same_text(a: &str, b: &str) -> (r: bool)
    ensures
        r == (a@ == b@),
{
    let x = a.to_owned();
    let y = b.to_owned();
    x == y
}

/// An optional text, trimmed; a missing or blank text is none.
pub fn norm_opt(s: Option<String>) -> (r: Option<String>)
    ensures
        match s {
            Some(v) => if trimmed(v@).len() == 0 {
                r is None
            } else {
                r is Some && r->Some_0@ == trimmed(v@)
            },
            None => r is None,
        },
{
    match s {
        None => None,
        Some(v) => {
            let t = trim(v.as_str());
            if t.unicode_len() == 0 {
                None
            } else {
                Some(t.to_owned())
            }
        },
    }
}

/// An optional search text, trimmed; a missing or blank text is none.
pub fn norm_opt_q(s: Option<String>) -> (r: Option<String>)
    ensures
        match s {
            Some(v) => if trimmed(v@).len() == 0 {
                r is None
            } else {
                r is Some && r->Some_0@ == trimmed(v@)
            },
            None => r is None,
        },
{
    norm_opt(s)
}

/// A required text, trimmed; a blank text is refused, and the error names
/// the field.
pub fn norm_req(field: &str, s: &str) -> (r: Result<String, LedgerError>)
    ensures
        match r {
            Ok(t) => t@ == trimmed(s@) && t@.len() > 0,
            Err(e) => e@ == (crate::error::ErrorView::FieldRequired { field: field@ }) && trimmed(
                s@,
            ).len() == 0,
        },
{
    let t = trim(s);
    if t.unicode_len() == 0 {
        Err(LedgerError::FieldRequired { field: field.to_owned() })
    } else {
        Ok(t.to_owned())
    }
}

/// A required text of bounded length, trimmed; a blank text and one with more
/// than `max_len` characters are refused, and the error names the field.
pub fn norm_req_len(field: &str, s: &str, max_len: usize) -> (r: Result<String, LedgerError>)
    ensures
        match r {
            Ok(t) => t@ == trimmed(s@) && 0 < t@.len() <= max_len,
            Err(e) => if trimmed(s@).len() == 0 {
                e@ == (crate::error::ErrorView::FieldRequired { field: field@ })
            } else {
                e@ == (crate::error::ErrorView::FieldTooLong {
                    field: field@,
                    max: max_len as nat,
                }) && trimmed(s@).len() > max_len
            },
        },
{
    let t = trim(s);
    let n = t.unicode_len();
    if n == 0 {
        Err(LedgerError::FieldRequired { field: field.to_owned() })
    } else if n > max_len {
        Err(LedgerError::FieldTooLong { field: field.to_owned(), max: max_len })
    } else {
        Ok(t.to_owned())
    }
}

/// `String::push` of the standard library: appends one character.
#[verifier::external_body]
pub(crate) fn push_char(out: &mut String, c: char)
    ensures
        final(out)@ == old(out)@.push(c),
{
    out.push(c)
}

/// The text without its hyphens.
pub open spec fn without_hyphens(s: Seq<char>) -> Seq<char>
    decreases s.len(),
{
    if s.len() == 0 {
        s
    } else if s.last() == '-' {
        without_hyphens(s.drop_last())
    } else {
        without_hyphens(s.drop_last()).push(s.last())
    }
}

/// Removes the hyphens from a text.
pub fn strip_hyphens(s: &str) -> (r: String)
    ensures
        r@ == without_hyphens(s@),
{
    let n = s.unicode_len();
    let mut out = String::new();
    let mut i: usize = 0;
    assert(s@.take(0) =~= Seq::<char>::empty());
    while i < n
        invariant
            i <= n,
            n == s@.len(),
            out@ == without_hyphens(s@.take(i as int)),
        decreases n - i,
    {
        let c = s.get_char(i);
        proof {
            let t = s@.take(i as int + 1);
            assert(t.drop_last() =~= s@.take(i as int));
            assert(t.last() == c);
        }
        if c != '-' {
            push_char(&mut out, c);
        }
        i += 1;
    }
    assert(s@.take(n as int) =~= s@);
    out
}

/// Whether a character is a decimal digit.
pub open spec fn is_digit(c: char) -> bool {
    0x30 <= c as u32 <= 0x39
}

/// The number of decimal digits a text starts with.
pub open spec fn digit_run(s: Seq<char>) -> nat
    decreases s.len(),
{
    if s.len() > 0 && is_digit(s[0]) {
        1 + digit_run(s.drop_first())
    } else {
        0
    }
}

/// The number that the first `n` characters spell, all of them digits.
pub open spec fn digits_value(s: Seq<char>, n: nat) -> nat
    decreases n,
{
    if n == 0 {
        0
    } else {
        digits_value(s, (n - 1) as nat) * 10 + (s[n - 1] as u32 - 0x30) as nat
    }
}

/// The number a text starts with: the value of its leading decimal digits,
/// zero where it starts with none.
pub open spec fn leading_number(s: Seq<char>) -> nat {
    digits_value(s, digit_run(s))
}

/// A text that starts with `k` digits starts with `k` digits and then with
/// as many as follow them.
pub proof fn lemma_digit_run_step(s: Seq<char>, k: nat)
    requires
        k <= s.len(),
        forall|i: int| 0 <= i < k ==> is_digit(#[trigger] s[i]),
    ensures
        digit_run(s) == k + digit_run(s.skip(k as int)),
    decreases k,
{
    if k == 0 {
        assert(s.skip(0) =~= s);
    } else {
        assert(is_digit(s[0]));
        let t = s.drop_first();
        assert forall|i: int| 0 <= i < k - 1 implies is_digit(#[trigger] t[i]) by {
            assert(t[i] == s[i + 1]);
        }
        lemma_digit_run_step(t, (k - 1) as nat);
        assert(t.skip(k - 1) =~= s.skip(k as int));
    }
}

/// Reads the number a text starts with, from the character at `from` on. A
/// number above `cap` is reported as `cap`.
pub fn read_number(s: &str, from: usize, cap: u64) -> (r: u64)
    requires
        from <= s@.len(),
        cap <= 0x7fff_ffff_ffff_ffff,
    ensures
        r == if leading_number(s@.skip(from as int)) > cap {
            cap as nat
        } else {
            leading_number(s@.skip(from as int))
        },
{
    let n = s.unicode_len();
    let ghost tail = s@.skip(from as int);
    let mut acc: u64 = 0;
    let mut over = false;
    let mut i: usize = from;
    while i < n
        invariant
            from <= i <= n,
            n == s@.len(),
            tail == s@.skip(from as int),
            cap <= 0x7fff_ffff_ffff_ffff,
            forall|j: int| 0 <= j < i - from ==> is_digit(#[trigger] tail[j]),
            !over ==> acc == digits_value(tail, (i - from) as nat) && acc <= cap,
            over ==> digits_value(tail, (i - from) as nat) > cap,
        decreases n - i,
    {
        let c = s.get_char(i);
        assert(tail[i - from] == c);
        let u = c as u32;
        if !(0x30 <= u && u <= 0x39) {
            proof {
                lemma_digit_run_step(tail, (i - from) as nat);
                assert(tail.skip(i - from)[0] == c);
                assert(digit_run(tail.skip(i - from)) == 0);
            }
            return if over {
                cap
            } else {
                acc
            };
        }
        let d = (u - 0x30) as u64;
        if !over {
            if d > cap {
                over = true;
            } else if acc > (cap - d) / 10 {
                over = true;
                assert(acc * 10 + d > cap) by (nonlinear_arith)
                    requires
                        acc > (cap - d) / 10,
                        d <= 9,
                        d <= cap,
                ;
            } else {
                assert(acc * 10 + d <= cap) by (nonlinear_arith)
                    requires
                        acc <= (cap - d) / 10,
                        d <= cap,
                ;
                acc = acc * 10 + d;
            }
        } else {
            assert(digits_value(tail, (i + 1 - from) as nat) >= digits_value(
                tail,
                (i - from) as nat,
            )) by (nonlinear_arith)
                requires
                    digits_value(tail, (i + 1 - from) as nat) == digits_value(
                        tail,
                        (i - from) as nat,
                    ) * 10 + d,
            ;
        }
        i += 1;
    }
    proof {
        lemma_digit_run_step(tail, (n - from) as nat);
        assert(tail.skip(n - from).len() == 0);
    }
    if over {
        cap
    } else {
        acc
    }
}

/// The decimal digits of a number, with a minus sign in front of a negative
/// one.
pub open spec fn signed_decimal(n: int) -> Seq<char> {
    if n < 0 {
        seq!['-'] + decimal((-n) as nat)
    } else {
        decimal(n as nat)
    }
}

/// Appends a number in decimal, with a minus sign in front of a negative one.
pub fn push_signed(out: &mut String, n: i64)
    ensures
        final(out)@ == old(out)@ + signed_decimal(n as int),
{
    if n < 0 {
        proof {
            reveal_strlit("-");
        }
        out.append("-");
        let m: u64 = (-(n as i128)) as u64;
        push_decimal(out, m);
        assert(out@ =~= old(out)@ + signed_decimal(n as int));
    } else {
        push_decimal(out, n as u64);
    }
}

/// Whether a text comes before another, or is the same: texts are compared
/// character by character, and a text comes before every text it starts.
pub open spec fn text_le(a: Seq<char>, b: Seq<char>) -> bool
    decreases a.len(),
{
    if a.len() == 0 {
        true
    } else if b.len() == 0 {
        false
    } else if a[0] != b[0] {
        (a[0] as u32) < (b[0] as u32)
    } else {
        text_le(a.drop_first(), b.drop_first())
    }
}

/// Of two texts, one comes before the other or they are the same.
pub proof fn lemma_text_le_total(a: Seq<char>, b: Seq<char>)
    ensures
        text_le(a, b) || text_le(b, a),
    decreases a.len(),
{
    if a.len() > 0 && b.len() > 0 {
        if a[0] == b[0] {
            lemma_text_le_total(a.drop_first(), b.drop_first());
        } else {
            assert(a[0] as u32 != b[0] as u32) by {
                vstd::utf8::char_u32_cast(a[0], a[0] as u32);
                vstd::utf8::char_u32_cast(b[0], b[0] as u32);
            }
        }
    }
}

/// Two texts that come before one another are the same text.
pub proof fn lemma_text_le_antisymmetric(a: Seq<char>, b: Seq<char>)
    requires
        text_le(a, b),
        text_le(b, a),
    ensures
        a == b,
    decreases a.len(),
{
    if a.len() == 0 {
        assert(b.len() == 0);
        assert(a =~= b);
    } else {
        assert(b.len() > 0);
        assert(a[0] == b[0]);
        lemma_text_le_antisymmetric(a.drop_first(), b.drop_first());
        assert(a =~= seq![a[0]] + a.drop_first());
        assert(b =~= seq![b[0]] + b.drop_first());
    }
}

/// What comes before a text comes before everything the text comes before.
pub proof fn lemma_text_le_transitive(a: Seq<char>, b: Seq<char>, c: Seq<char>)
    requires
        text_le(a, b),
        text_le(b, c),
    ensures
        text_le(a, c),
    decreases a.len(),
{
    if a.len() > 0 {
        assert(b.len() > 0);
        assert(c.len() > 0);
        if a[0] == b[0] && b[0] == c[0] {
            lemma_text_le_transitive(a.drop_first(), b.drop_first(), c.drop_first());
        }
    }
}

/// The characters of a text.
pub fn chars_of(s: &str) -> (v: Vec<char>)
    ensures
        v@ == s@,
{
    let n = s.unicode_len();
    let mut v: Vec<char> = Vec::new();
    let mut i: usize = 0;
    while i < n
        invariant
            i <= n,
            n == s@.len(),
            v@ == s@.take(i as int),
        decreases n - i,
    {
        v.push(s.get_char(i));
        assert(v@ =~= s@.take(i as int + 1));
        i += 1;
    }
    assert(s@.take(n as int) =~= s@);
    v
}

/// Whether a text comes before another, or is the same.
pub fn comes_first(a: &Vec<char>, b: &Vec<char>) -> (r: bool)
    ensures
        r == text_le(a@, b@),
{
    let mut i: usize = 0;
    assert(a@.skip(0) =~= a@ && b@.skip(0) =~= b@);
    loop
        invariant
            i <= a.len(),
            i <= b.len(),
            text_le(a@, b@) == text_le(a@.skip(i as int), b@.skip(i as int)),
        decreases a.len() - i,
    {
        if i >= a.len() {
            return true;
        }
        if i >= b.len() {
            return false;
        }
        assert(a@.skip(i as int)[0] == a@[i as int]);
        assert(b@.skip(i as int)[0] == b@[i as int]);
        if a[i] != b[i] {
            return (a[i] as u32) < (b[i] as u32);
        }
        assert(a@.skip(i as int).drop_first() =~= a@.skip(i as int + 1));
        assert(b@.skip(i as int).drop_first() =~= b@.skip(i as int + 1));
        i += 1;
    }
}

} // verus!
