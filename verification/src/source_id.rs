//! The canonical string identifier of a capture source.
//!
//! A source is either a monitor or an application window, named by its OS
//! handle. The external identifier is `"monitor_<n>"` or `"window_<n>"`
//! with `<n>` the handle in canonical decimal (no leading zeros, no `"-0"`).
//! Encoding is injective and decoding accepts exactly the canonical forms.

use vstd::prelude::*;

use crate::text::has_prefix;

verus! {

/// A capture source: a monitor or a window, named by its OS handle.
#[derive(Debug, Clone, Copy, PartialEq, Eq, Structural)]
pub enum CaptureSourceType {
    /// A monitor, by its HMONITOR value.
    Monitor(isize),
    /// An application window, by its HWND value.
    Window(isize),
}

/// The identifier prefix for monitors.
pub open spec fn monitor_prefix() -> Seq<char> {
    "monitor_"@
}

/// The identifier prefix for windows.
pub open spec fn window_prefix() -> Seq<char> {
    "window_"@
}

/// Whether `c` is a decimal digit.
pub open spec fn is_digit(c: char) -> bool {
    48 <= c as int && c as int <= 57
}

/// The numeric value of the digit `c`.
pub open spec fn digit_val(c: char) -> nat {
    (c as int - 48) as nat
}

/// The digit character for a value below ten.
pub open spec fn digit_char(d: nat) -> char {
    if d == 0 {
        '0'
    } else if d == 1 {
        '1'
    } else if d == 2 {
        '2'
    } else if d == 3 {
        '3'
    } else if d == 4 {
        '4'
    } else if d == 5 {
        '5'
    } else if d == 6 {
        '6'
    } else if d == 7 {
        '7'
    } else if d == 8 {
        '8'
    } else {
        '9'
    }
}

/// The decimal representation of `n`, most significant digit first.
pub open spec fn dec_rep(n: nat) -> Seq<char>
    decreases n,
{
    if n < 10 {
        seq![digit_char(n)]
    } else {
        dec_rep(n / 10).push(digit_char(n % 10))
    }
}

/// The decimal representation of `v`, with a sign for negative values.
pub open spec fn int_rep(v: int) -> Seq<char> {
    if v < 0 {
        seq!['-'] + dec_rep((-v) as nat)
    } else {
        dec_rep(v as nat)
    }
}

/// What `to_id` returns: the prefix for the source kind, then the handle.
pub open spec fn to_id_spec(t: CaptureSourceType) -> Seq<char> {
    match t {
        CaptureSourceType::Monitor(h) => monitor_prefix() + int_rep(h as int),
        CaptureSourceType::Window(h) => window_prefix() + int_rep(h as int),
    }
}

/// The numeric value of a digit string, most significant digit first.
pub open spec fn digits_val(s: Seq<char>) -> nat
    decreases s.len(),
{
    if s.len() == 0 {
        0
    } else {
        digits_val(s.drop_last()) * 10 + digit_val(s.last())
    }
}

/// Whether `s` is a canonical digit string: non-empty, all digits, and no
/// leading zero except for `"0"` itself.
pub open spec fn is_canonical_digits(s: Seq<char>) -> bool {
    &&& s.len() > 0
    &&& (forall|i: int| 0 <= i < s.len() ==> is_digit(#[trigger] s[i]))
    &&& (s.len() > 1 ==> s[0] != '0')
}

/// The handle a digit-or-sign string denotes, if it is the canonical decimal
/// form of a value in `isize` range; `None` otherwise.
pub open spec fn parse_handle_spec(s: Seq<char>) -> Option<isize> {
    if s.len() > 0 && s[0] == '-' {
        let d = s.subrange(1, s.len() as int);
        if is_canonical_digits(d) && d[0] != '0' && -(digits_val(d) as int) >= isize::MIN as int {
            Some((-(digits_val(d) as int)) as isize)
        } else {
            None
        }
    } else {
        if is_canonical_digits(s) && digits_val(s) <= isize::MAX as int {
            Some(digits_val(s) as isize)
        } else {
            None
        }
    }
}

/// What `from_id` returns: the source whose canonical identifier is `s`, or
/// `None` when `s` lacks the `monitor_`/`window_` prefix or its handle part
/// is not canonical decimal in range.
pub open spec fn from_id_spec(s: Seq<char>) -> Option<CaptureSourceType> {
    if s.len() >= monitor_prefix().len() && s.subrange(0, monitor_prefix().len() as int)
        == monitor_prefix() {
        match parse_handle_spec(s.subrange(monitor_prefix().len() as int, s.len() as int)) {
            Some(h) => Some(CaptureSourceType::Monitor(h)),
            None => None,
        }
    } else if s.len() >= window_prefix().len() && s.subrange(0, window_prefix().len() as int)
        == window_prefix() {
        match parse_handle_spec(s.subrange(window_prefix().len() as int, s.len() as int)) {
            Some(h) => Some(CaptureSourceType::Window(h)),
            None => None,
        }
    } else {
        None
    }
}

/// The single-character string for the digit `d`.
fn digit_str(d: u8) -> (r: &'static str)
    requires
        d < 10,
    ensures
        r@ =~= seq![digit_char(d as nat)],
{
    proof {
        reveal_strlit("0");
        reveal_strlit("1");
        reveal_strlit("2");
        reveal_strlit("3");
        reveal_strlit("4");
        reveal_strlit("5");
        reveal_strlit("6");
        reveal_strlit("7");
        reveal_strlit("8");
        reveal_strlit("9");
    }
    match d {
        0 => "0",
        1 => "1",
        2 => "2",
        3 => "3",
        4 => "4",
        5 => "5",
        6 => "6",
        7 => "7",
        8 => "8",
        _ => "9",
    }
}

/// Appends the decimal representation of `n` to `s`.
fn push_dec(s: &mut String, n: u64)
    ensures
        final(s)@ == old(s)@ + dec_rep(n as nat),
    decreases n,
{
    if n < 10 {
        s.append(digit_str(n as u8));
    } else {
        push_dec(s, n / 10);
        s.append(digit_str((n % 10) as u8));
        assert(dec_rep(n as nat) == dec_rep((n / 10) as nat).push(digit_char((n % 10) as nat)));
        assert(final(s)@ =~= old(s)@ + dec_rep(n as nat));
    }
}

/// The decimal string of an unsigned number.
pub fn decimal_string(n: u64) -> (r: String)
    ensures
        r@ == dec_rep(n as nat),
{
    let mut s = String::new();
    push_dec(&mut s, n);
    proof {
        assert(s@ =~= dec_rep(n as nat));
    }
    s
}

/// Appends the decimal representation of `v`, sign included, to `s`.
fn push_int(s: &mut String, v: isize)
    ensures
        final(s)@ == old(s)@ + int_rep(v as int),
{
    if v < 0 {
        s.append("-");
        proof {
            reveal_strlit("-");
        }
        let mag: u64 = (-(v as i128)) as u64;
        push_dec(s, mag);
        assert(final(s)@ =~= old(s)@ + int_rep(v as int));
    } else {
        push_dec(s, v as u64);
    }
}

/// A digit-string prefix never exceeds the whole string in value.
proof fn lemma_digits_val_prefix(s: Seq<char>, t: Seq<char>)
    ensures
        digits_val(s) <= digits_val(s + t),
    decreases t.len(),
{
    if t.len() == 0 {
        assert(s + t =~= s);
    } else {
        lemma_digits_val_prefix(s, t.drop_last());
        assert((s + t).drop_last() =~= s + t.drop_last());
    }
}

/// The decimal representation of `n` is canonical and denotes `n`.
proof fn lemma_dec_rep(n: nat)
    ensures
        is_canonical_digits(dec_rep(n)),
        digits_val(dec_rep(n)) == n,
        dec_rep(n)[0] == '0' ==> n == 0,
    decreases n,
{
    if n < 10 {
        let s = dec_rep(n);
        assert(s.drop_last() =~= Seq::<char>::empty());
        assert(digits_val(Seq::<char>::empty()) == 0);
        assert(s.last() == digit_char(n));
        assert(digits_val(s) == digits_val(s.drop_last()) * 10 + digit_val(s.last()));
        assert(digit_val(digit_char(n)) == n);
    } else {
        lemma_dec_rep(n / 10);
        let p = dec_rep(n / 10);
        let s = dec_rep(n);
        assert(s.drop_last() =~= p);
        assert(s.last() == digit_char(n % 10));
        assert(digit_val(digit_char(n % 10)) == n % 10);
        assert(digits_val(s) == (n / 10) * 10 + n % 10);
        assert(n == (n / 10) * 10 + n % 10) by {
            vstd::arithmetic::div_mod::lemma_fundamental_div_mod(n as int, 10);
        }
        assert(s[0] == p[0]);
    }
}

/// Parses the handle region `[start, n)` of `s` as canonical decimal.
#[verifier::loop_isolation(false)]
fn parse_handle(s: &str, start: usize, n: usize) -> (r: Option<isize>)
    requires
        start <= n,
        n == s@.len(),
    ensures
        r == parse_handle_spec(s@.subrange(start as int, n as int)),
{
    let ghost region = s@.subrange(start as int, n as int);
    if start == n {
        return None;
    }
    let first = s.get_char(start);
    let neg = first == '-';
    let dstart = if neg {
        start + 1
    } else {
        start
    };
    let ghost digits = s@.subrange(dstart as int, n as int);
    proof {
        if neg {
            assert(region[0] == '-');
            assert(region.subrange(1, region.len() as int) =~= digits);
        } else {
            assert(region =~= digits);
            assert(region.len() > 0 && is_digit(region[0]) ==> region[0] != '-');
        }
    }
    if dstart == n {
        // An empty digit part (either the empty region or a lone sign).
        return None;
    }
    let d0 = s.get_char(dstart);
    let d0u = d0 as u32;
    if d0u < 48 || 57 < d0u {
        proof {
            assert(digits[0] == s@[dstart as int]);
            assert(!is_digit(digits[0]));
        }
        return None;
    }
    if d0 == '0' && (neg || dstart + 1 < n) {
        // A leading zero: canonical only as the single non-negative "0".
        proof {
            assert(digits[0] == '0');
        }
        return None;
    }
    let mut acc: u64 = 0;
    let mut i = dstart;
    while i < n
        invariant
            dstart <= i <= n,
            n == s@.len(),
            dstart <= n,
            digits == s@.subrange(dstart as int, n as int),
            forall|j: int| dstart <= j < i ==> is_digit(#[trigger] s@[j]),
            acc == digits_val(s@.subrange(dstart as int, i as int)),
        decreases n - i,
    {
        let c = s.get_char(i);
        let u = c as u32;
        if u < 48 || 57 < u {
            proof {
                assert(digits[i - dstart] == s@[i as int]);
                assert(!is_digit(digits[i - dstart]));
            }
            return None;
        }
        let d = (u - 48) as u64;
        proof {
            assert(s@.subrange(dstart as int, i + 1).drop_last() =~= s@.subrange(
                dstart as int,
                i as int,
            ));
            assert(s@.subrange(dstart as int, i + 1).last() == s@[i as int]);
            assert(digits_val(s@.subrange(dstart as int, i + 1)) == acc * 10 + digit_val(
                s@[i as int],
            ));
        }
        if acc > (u64::MAX - 9) / 10 {
            // The value can no longer fit a signed machine word.
            proof {
                let upto = s@.subrange(dstart as int, i + 1);
                lemma_digits_val_prefix(upto, s@.subrange(i + 1, n as int));
                assert(upto + s@.subrange(i + 1, n as int) =~= digits);
                assert(digits_val(digits) >= acc * 10);
                assert(digits_val(digits) > isize::MAX as int);
                assert(-(digits_val(digits) as int) < isize::MIN as int);
            }
            return None;
        }
        acc = acc * 10 + d;
        i = i + 1;
    }
    proof {
        assert(digits =~= s@.subrange(dstart as int, i as int));
        assert(is_canonical_digits(digits));
        assert(digits_val(digits) == acc);
    }
    if neg {
        let min_mag: i128 = -(isize::MIN as i128);
        if (acc as i128) <= min_mag {
            let v: i128 = -(acc as i128);
            proof {
                assert(isize::MIN as i128 <= v <= isize::MAX as i128);
            }
            Some(v as isize)
        } else {
            None
        }
    } else {
        if (acc as i128) <= (isize::MAX as i128) {
            Some(acc as isize)
        } else {
            None
        }
    }
}

impl CaptureSourceType {
    /// The canonical string identifier of this source.
    pub fn to_id(&self) -> (r: String)
        ensures
            r@ == to_id_spec(*self),
    {
        match self {
            CaptureSourceType::Monitor(h) => {
                let mut s = String::from_str("monitor_");
                push_int(&mut s, *h);
                s
            },
            CaptureSourceType::Window(h) => {
                let mut s = String::from_str("window_");
                push_int(&mut s, *h);
                s
            },
        }
    }

    /// Decodes a canonical identifier; rejects any other string.
    pub fn from_id(id: &str) -> (r: Option<Self>)
        ensures
            r == from_id_spec(id@),
    {
        let n = id.unicode_len();
        if has_prefix(id, "monitor_") {
            let start = "monitor_".unicode_len();
            match parse_handle(id, start, n) {
                Some(h) => Some(CaptureSourceType::Monitor(h)),
                None => None,
            }
        } else if has_prefix(id, "window_") {
            let start = "window_".unicode_len();
            match parse_handle(id, start, n) {
                Some(h) => Some(CaptureSourceType::Window(h)),
                None => None,
            }
        } else {
            None
        }
    }
}

/// The handle region of an encoded identifier parses back to the handle.
proof fn lemma_int_rep_parses(h: isize)
    ensures
        parse_handle_spec(int_rep(h as int)) == Some(h),
{
    if h >= 0 {
        lemma_dec_rep(h as nat);
        let s = int_rep(h as int);
        assert(s == dec_rep(h as nat));
        assert(is_digit(s[0]));
        assert(s[0] != '-');
        assert(digits_val(s) == h as int);
    } else {
        lemma_dec_rep((-(h as int)) as nat);
        let s = int_rep(h as int);
        let d = dec_rep((-(h as int)) as nat);
        assert(s == seq!['-'] + d);
        assert(s[0] == '-');
        assert(s.subrange(1, s.len() as int) =~= d);
        assert(d[0] != '0');
        assert(-(digits_val(d) as int) == h as int);
    }
}

/// Law: the canonical encoding round-trips, for every source.
pub proof fn lemma_source_id_round_trip(t: CaptureSourceType)
    ensures
        from_id_spec(to_id_spec(t)) == Some(t),
{
    reveal_strlit("monitor_");
    reveal_strlit("window_");
    match t {
        CaptureSourceType::Monitor(h) => {
            let s = to_id_spec(t);
            let rep = int_rep(h as int);
            if h >= 0 {
                lemma_dec_rep(h as nat);
            } else {
                lemma_dec_rep((-(h as int)) as nat);
            }
            assert(rep.len() >= 1);
            assert(s.len() >= monitor_prefix().len());
            assert(s.subrange(0, monitor_prefix().len() as int) =~= monitor_prefix());
            assert(s.subrange(monitor_prefix().len() as int, s.len() as int) =~= rep);
            lemma_int_rep_parses(h);
        },
        CaptureSourceType::Window(h) => {
            let s = to_id_spec(t);
            let rep = int_rep(h as int);
            if h >= 0 {
                lemma_dec_rep(h as nat);
            } else {
                lemma_dec_rep((-(h as int)) as nat);
            }
            assert(rep.len() >= 1);
            assert(s[0] == 'w');
            if s.len() >= monitor_prefix().len() && s.subrange(0, monitor_prefix().len() as int)
                == monitor_prefix() {
                assert(s.subrange(0, monitor_prefix().len() as int)[0] == s[0]);
                assert(false);
            }
            assert(s.len() >= window_prefix().len());
            assert(s.subrange(0, window_prefix().len() as int) =~= window_prefix());
            assert(s.subrange(window_prefix().len() as int, s.len() as int) =~= rep);
            lemma_int_rep_parses(h);
        },
    }
}

/// Law: the canonical encoding is injective.
pub proof fn lemma_to_id_injective(a: CaptureSourceType, b: CaptureSourceType)
    requires
        to_id_spec(a) == to_id_spec(b),
    ensures
        a == b,
{
    lemma_source_id_round_trip(a);
    lemma_source_id_round_trip(b);
}

/// Law: a string with neither identifier prefix never decodes.
pub proof fn lemma_from_id_rejects_unprefixed(s: Seq<char>)
    requires
        !(s.len() >= monitor_prefix().len() && s.subrange(0, monitor_prefix().len() as int)
            == monitor_prefix()),
        !(s.len() >= window_prefix().len() && s.subrange(0, window_prefix().len() as int)
            == window_prefix()),
    ensures
        from_id_spec(s) is None,
{
}

} // verus!
