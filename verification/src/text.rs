//! Text that requests and messages are made of.
use awc::http::StatusCode;
use vstd::prelude::*;
use vstd::string::{StrSliceExecFns, StringExecFns};
use vstd::utf8::{decode_utf8, valid_utf8};

verus! {

/// The decimal digit of `d`, which is below 10.
pub open spec fn digit(d: nat) -> char {
    (48 + d) as char
}

/// `n` in decimal notation, without leading zeros.
pub open spec fn decimal(n: nat) -> Seq<char>
    decreases n,
{
    if n < 10 {
        seq![digit(n)]
    } else {
        decimal(n / 10).push(digit(n % 10))
    }
}

/// The text of one decimal digit.
fn digit_str(d: u64) -> (res: &'static str)
    requires
        d < 10,
    ensures
        res@ == seq![digit(d as nat)],
{
    proof {
        reveal_strlit("0");
        reveal_strlit("1");
        reveal_strlit("2");
        reveal_strlit("3");
        reveal_strlit("4");
        reveal_strlit("5");
        reveal_strlit("6");
        reveal_strlit("7");
        reveal_strlit("8");
        reveal_strlit("9");
    }
    let res = match d {
        0 => "0",
        1 => "1",
        2 => "2",
        3 => "3",
        4 => "4",
        5 => "5",
        6 => "6",
        7 => "7",
        8 => "8",
        _ => "9",
    };
    res
}

/// Appends `n` in decimal notation to `text`.
pub fn append_decimal(text: &mut String, n: u64)
    ensures
        final(text)@ == old(text)@ + decimal(n as nat),
    decreases n,
{
    if n >= 10 {
        append_decimal(text, n / 10);
    }
    text.append(digit_str(n % 10));
    proof {
        if n >= 10 {
            assert(old(text)@ + decimal(n as nat / 10) + seq![digit(n as nat % 10)] =~= old(text)@
                + decimal(n as nat));
        }
    }
}

/// `s` without the characters `c` at its end.
pub open spec fn trimmed_end(s: Seq<char>, c: char) -> Seq<char>
    decreases s.len(),
{
    if s.len() > 0 && s.last() == c {
        trimmed_end(s.drop_last(), c)
    } else {
        s
    }
}

/// `s` without the characters `c` at its end.
pub fn trim_end(s: &str, c: char) -> (res: &str)
    ensures
        res@ == trimmed_end(s@, c),
{
    let mut len: usize = s.unicode_len();
    assert(s@.take(len as int) =~= s@);
    while len > 0 && s.get_char(len - 1) == c
        invariant
            len <= s@.len(),
            trimmed_end(s@.take(len as int), c) == trimmed_end(s@, c),
        decreases len,
    {
        assert(s@.take(len as int).drop_last() =~= s@.take(len - 1));
        len = len - 1;
    }
    s.substring_char(0, len)
}

/// What `String::from_utf8_lossy` makes of `bytes`.
pub uninterp spec fn lossy_text(bytes: Seq<u8>) -> Seq<char>;

/// Decodes `bytes` with std's `String::from_utf8_lossy`.
///
/// Trusted: the text depends on the bytes alone, and bytes that are valid UTF-8 are decoded as
/// they are.
#[verifier::external_body]
pub(crate) fn utf8_lossy(bytes: &[u8]) -> (res: String)
    ensures
        res@ == lossy_text(bytes@),
        valid_utf8(bytes@) ==> res@ == decode_utf8(bytes@),
{
    String::from_utf8_lossy(bytes).into_owned()
}

/// The reason phrase that `Display` writes behind the number of an HTTP status code: the canonical
/// reason, or a fixed text where there is none.
pub uninterp spec fn http_status_reason(status: u16) -> Seq<char>;

/// Formats `status` through `awc::http::StatusCode`, by `from_u16` and `Display`.
///
/// Trusted: the text is the number, a space and a phrase that depends on the number alone.
/// `from_u16` fails outside 100 to 999, so `requires` leaves those numbers out.
#[verifier::external_body]
pub(crate) fn status_text(status: u16) -> (res: String)
    requires
        100 <= status <= 999,
    ensures
        res@ == decimal(status as nat).push(' ') + http_status_reason(status),
{
    StatusCode::from_u16(status).unwrap().to_string()
}

/// The decimal notation of a number is made of digits that give the number back, without a leading
/// zero.
pub proof fn law_decimal(n: nat)
    ensures
        decimal(n).len() > 0,
        forall|i: int| 0 <= i < decimal(n).len() ==> '0' <= #[trigger] decimal(n)[i] <= '9',
        decimal(n).len() > 1 ==> decimal(n)[0] != '0',
        decimal(n).fold_left(0int, |value: int, c: char| 10 * value + (c as int - '0' as int)) == n,
    decreases n,
{
    let next = |value: int, c: char| 10 * value + (c as int - '0' as int);
    if n < 10 {
        let text = decimal(n);
        assert(text.drop_last() =~= Seq::empty());
        assert(text.drop_last().fold_left(0int, next) == 0);
    } else {
        law_decimal(n / 10);
        assert(decimal(n).drop_last() =~= decimal(n / 10));
        if n / 10 < 10 {
            assert(decimal(n)[0] == digit(n / 10));
        } else {
            assert(decimal(n / 10).len() > 1) by {
                assert(decimal(n / 10 / 10).len() > 0) by {
                    law_decimal(n / 10 / 10);
                }
            }
            assert(decimal(n)[0] == decimal(n / 10)[0]);
        }
    }
}

/// Numbers that differ have notations that differ.
pub proof fn law_decimal_is_unique(n: nat, m: nat)
    ensures
        decimal(n) == decimal(m) ==> n == m,
{
    law_decimal(n);
    law_decimal(m);
}

/// Trimming takes nothing but the characters `c` at the end, and all of them.
pub proof fn law_trimmed_end(s: Seq<char>, c: char)
    ensures
        trimmed_end(s, c).is_prefix_of(s),
        forall|i: int| trimmed_end(s, c).len() <= i < s.len() ==> #[trigger] s[i] == c,
        trimmed_end(s, c).len() > 0 ==> trimmed_end(s, c).last() != c,
    decreases s.len(),
{
    if s.len() > 0 && s.last() == c {
        let front = s.drop_last();
        law_trimmed_end(front, c);
        assert forall|i: int| trimmed_end(s, c).len() <= i < s.len() implies #[trigger] s[i]
            == c by {
            if i < front.len() {
                assert(front[i] == c);
            }
        }
    }
}

} // verus!
