//! Byte-scanning primitives over an immutable byte slice.
//!
//! Pure cursor-based scanners: each takes a slice and a start position and
//! returns where a maximal run of bytes of one class ends. `scan_while` is
//! the single specification all of them are proved against.
use vstd::prelude::*;
use vstd::string::StringSliceAdditionalSpecFns;

verus! {

pub const SP: u8 = 32;

pub const HT: u8 = 9;

pub const CR: u8 = 13;

pub const LF: u8 = 10;

pub const QUOTE: u8 = 39;

/// Whitespace inside a control line: space or horizontal tab.
pub open spec fn is_space(c: u8) -> bool {
    c == SP || c == HT
}

/// Bytes an identifier token is made of: anything but a space.
pub open spec fn is_ident(c: u8) -> bool {
    c != SP
}

pub open spec fn is_digit(c: u8) -> bool {
    48 <= c <= 57
}

/// Bytes allowed in the text of an error line: ASCII letters, digits,
/// `.`, `*`, `_`, `-` and space.
pub open spec fn is_err_text(c: u8) -> bool {
    (97 <= c <= 122) || (65 <= c <= 90) || (48 <= c <= 57) || c == 46 || c == 42 || c == 95
        || c == 45 || c == SP
}

pub open spec fn space_pred() -> spec_fn(u8) -> bool {
    |c: u8| is_space(c)
}

pub open spec fn ident_pred() -> spec_fn(u8) -> bool {
    |c: u8| is_ident(c)
}

pub open spec fn digit_pred() -> spec_fn(u8) -> bool {
    |c: u8| is_digit(c)
}

pub open spec fn err_text_pred() -> spec_fn(u8) -> bool {
    |c: u8| is_err_text(c)
}

/// The end of the maximal run of bytes satisfying `p` that starts at `i`.
pub open spec fn scan_while(s: Seq<u8>, i: int, p: spec_fn(u8) -> bool) -> int
    decreases s.len() - i,
    when 0 <= i <= s.len()
{
    if i == s.len() || !p(s[i]) {
        i
    } else {
        scan_while(s, i + 1, p)
    }
}

pub open spec fn scan_spaces(s: Seq<u8>, i: int) -> int {
    scan_while(s, i, space_pred())
}

pub open spec fn scan_ident(s: Seq<u8>, i: int) -> int {
    scan_while(s, i, ident_pred())
}

pub open spec fn scan_digits(s: Seq<u8>, i: int) -> int {
    scan_while(s, i, digit_pred())
}

pub open spec fn scan_err_text(s: Seq<u8>, i: int) -> int {
    scan_while(s, i, err_text_pred())
}

/// `scan_while` lands between `i` and the end, every byte before it in the
/// run satisfies `p`, and the byte it stops on (if any) does not.
pub proof fn lemma_scan_while_bounds(s: Seq<u8>, i: int, p: spec_fn(u8) -> bool)
    requires
        0 <= i <= s.len(),
    ensures
        i <= scan_while(s, i, p) <= s.len(),
        forall|k: int| i <= k < scan_while(s, i, p) ==> p(s[k]),
        scan_while(s, i, p) < s.len() ==> !p(s[scan_while(s, i, p)]),
    decreases s.len() - i,
{
    if i == s.len() || !p(s[i]) {
    } else {
        lemma_scan_while_bounds(s, i + 1, p);
    }
}

/// A run is pinned down by its content: if all of `[i, j)` satisfies `p`
/// and position `j` does not (or is the end), the scan stops at `j`.
pub proof fn lemma_scan_while_exact(s: Seq<u8>, i: int, j: int, p: spec_fn(u8) -> bool)
    requires
        0 <= i <= j <= s.len(),
        forall|k: int| i <= k < j ==> p(s[k]),
        j < s.len() ==> !p(s[j]),
    ensures
        scan_while(s, i, p) == j,
    decreases j - i,
{
    if i < j {
        lemma_scan_while_exact(s, i + 1, j, p);
    }
}

/// End of the maximal run of space/tab bytes starting at `from`, or `None`
/// when the run is empty: at least one whitespace byte is required.
pub fn space1(s: &[u8], from: usize) -> (r: Option<usize>)
    requires
        from <= s@.len(),
    ensures
        from <= scan_spaces(s@, from as int) <= s@.len(),
        r is None ==> scan_spaces(s@, from as int) == from,
        r matches Some(j) ==> from < j && j == scan_spaces(s@, from as int),
{
    proof {
        lemma_scan_while_bounds(s@, from as int, space_pred());
    }
    let mut i: usize = from;
    loop
        invariant
            from <= i <= s@.len(),
            scan_spaces(s@, from as int) == scan_spaces(s@, i as int),
        ensures
            from <= i <= s@.len(),
            scan_spaces(s@, from as int) == i,
        decreases s@.len() - i,
    {
        if i == s.len() {
            break ;
        }
        let c = s[i];
        if c != SP && c != HT {
            break ;
        }
        i = i + 1;
    }
    if i == from {
        None
    } else {
        Some(i)
    }
}

/// End of the maximal run of non-space bytes starting at `from`, or `None`
/// when the run is empty: a token needs at least one byte.
pub fn ident1(s: &[u8], from: usize) -> (r: Option<usize>)
    requires
        from <= s@.len(),
    ensures
        from <= scan_ident(s@, from as int) <= s@.len(),
        r is None ==> scan_ident(s@, from as int) == from,
        r matches Some(j) ==> from < j && j == scan_ident(s@, from as int),
{
    proof {
        lemma_scan_while_bounds(s@, from as int, ident_pred());
    }
    let mut i: usize = from;
    loop
        invariant
            from <= i <= s@.len(),
            scan_ident(s@, from as int) == scan_ident(s@, i as int),
        ensures
            from <= i <= s@.len(),
            scan_ident(s@, from as int) == i,
        decreases s@.len() - i,
    {
        if i == s.len() {
            break ;
        }
        if s[i] == SP {
            break ;
        }
        i = i + 1;
    }
    if i == from {
        None
    } else {
        Some(i)
    }
}

/// End of the maximal run of error-text bytes starting at `from`, or
/// `None` when the run is empty.
pub fn err_text1(s: &[u8], from: usize) -> (r: Option<usize>)
    requires
        from <= s@.len(),
    ensures
        from <= scan_err_text(s@, from as int) <= s@.len(),
        r is None ==> scan_err_text(s@, from as int) == from,
        r matches Some(j) ==> from < j && j == scan_err_text(s@, from as int),
{
    proof {
        lemma_scan_while_bounds(s@, from as int, err_text_pred());
    }
    let mut i: usize = from;
    loop
        invariant
            from <= i <= s@.len(),
            scan_err_text(s@, from as int) == scan_err_text(s@, i as int),
        ensures
            from <= i <= s@.len(),
            scan_err_text(s@, from as int) == i,
        decreases s@.len() - i,
    {
        if i == s.len() {
            break ;
        }
        let c = s[i];
        let ok = (97 <= c && c <= 122) || (65 <= c && c <= 90) || (48 <= c && c <= 57) || c == 46
            || c == 42 || c == 95 || c == 45 || c == SP;
        if !ok {
            break ;
        }
        i = i + 1;
    }
    if i == from {
        None
    } else {
        Some(i)
    }
}

/// The unsigned value of a run of ASCII digits, most significant first.
pub open spec fn digits_val(s: Seq<u8>) -> nat
    decreases s.len(),
{
    if s.len() == 0 {
        0
    } else {
        digits_val(s.drop_last()) * 10 + (s.last() - 48) as nat
    }
}

/// End of the maximal digit run starting at `from` together with its
/// parsed value. `None` when the run is empty or the value does not fit
/// in `usize`.
pub fn digit1(s: &[u8], from: usize) -> (r: Option<(usize, usize)>)
    requires
        from <= s@.len(),
    ensures
        from <= scan_digits(s@, from as int) <= s@.len(),
        r is None ==> scan_digits(s@, from as int) == from || digits_val(
            s@.subrange(from as int, scan_digits(s@, from as int)),
        ) > usize::MAX,
        r matches Some((j, v)) ==> from < j && j == scan_digits(s@, from as int) && v
            == digits_val(s@.subrange(from as int, j as int)),
{
    proof {
        lemma_scan_while_bounds(s@, from as int, digit_pred());
    }
    let mut i: usize = from;
    let mut val: usize = 0;
    let mut overflow: bool = false;
    loop
        invariant
            from <= i <= s@.len(),
            scan_digits(s@, from as int) == scan_digits(s@, i as int),
            forall|k: int| from <= k < i ==> is_digit(s@[k]),
            !overflow ==> val == digits_val(s@.subrange(from as int, i as int)),
            overflow ==> digits_val(s@.subrange(from as int, i as int)) > usize::MAX,
        ensures
            from <= i <= s@.len(),
            scan_digits(s@, from as int) == i,
            !overflow ==> val == digits_val(s@.subrange(from as int, i as int)),
            overflow ==> digits_val(s@.subrange(from as int, i as int)) > usize::MAX,
        decreases s@.len() - i,
    {
        if i == s.len() {
            break ;
        }
        let c = s[i];
        if c < 48 || c > 57 {
            break ;
        }
        let d: usize = (c - 48) as usize;
        proof {
            assert(s@.subrange(from as int, i + 1 as int).drop_last() =~= s@.subrange(
                from as int,
                i as int,
            ));
            assert(s@.subrange(from as int, i + 1 as int).last() == s@[i as int]);
        }
        if !overflow {
            if val > (usize::MAX - d) / 10 {
                overflow = true;
                proof {
                    let pre = digits_val(s@.subrange(from as int, i as int));
                    assert(pre * 10 + d > usize::MAX) by (nonlinear_arith)
                        requires
                            pre == val,
                            val > (usize::MAX - d) / 10,
                            d <= 9,
                    ;
                }
            } else {
                proof {
                    let pre = digits_val(s@.subrange(from as int, i as int));
                    assert(pre * 10 + d <= usize::MAX) by (nonlinear_arith)
                        requires
                            pre == val,
                            val <= (usize::MAX - d) / 10,
                            d <= 9,
                    ;
                }
                val = val * 10 + d;
            }
        } else {
            proof {
                let pre = digits_val(s@.subrange(from as int, i as int));
                assert(pre * 10 + d > usize::MAX) by (nonlinear_arith)
                    requires
                        pre > usize::MAX,
                        d >= 0,
                ;
            }
        }
        i = i + 1;
    }
    if i == from || overflow {
        None
    } else {
        Some((i, val))
    }
}

/// The decimal digits of `n`, most significant first, no leading zeros.
pub open spec fn dec_digits(n: nat) -> Seq<u8>
    decreases n,
{
    if n < 10 {
        seq![(n + 48) as u8]
    } else {
        dec_digits(n / 10).push((n % 10 + 48) as u8)
    }
}

/// Every byte of a decimal rendering is an ASCII digit.
pub proof fn lemma_dec_digits_are_digits(n: nat)
    ensures
        dec_digits(n).len() >= 1,
        forall|k: int| 0 <= k < dec_digits(n).len() ==> is_digit(#[trigger] dec_digits(n)[k]),
    decreases n,
{
    if n >= 10 {
        lemma_dec_digits_are_digits(n / 10);
    }
}

/// Parsing a decimal rendering gives back the number.
pub proof fn lemma_digits_val_of_dec(n: nat)
    ensures
        digits_val(dec_digits(n)) == n,
    decreases n,
{
    if n < 10 {
        assert(dec_digits(n).drop_last() =~= Seq::<u8>::empty());
        assert(digits_val(dec_digits(n)) == digits_val(Seq::<u8>::empty()) * 10 + (dec_digits(
            n,
        ).last() - 48) as nat);
    } else {
        lemma_digits_val_of_dec(n / 10);
        assert(dec_digits(n).drop_last() =~= dec_digits(n / 10));
        assert(digits_val(dec_digits(n)) == digits_val(dec_digits(n / 10)) * 10 + (dec_digits(
            n,
        ).last() - 48) as nat);
    }
}

/// The bytes of an ASCII string literal, one byte per character.
pub open spec fn str_bytes(s: &str) -> Seq<u8> {
    Seq::new(s@.len(), |i: int| s@[i] as u8)
}

/// The bytes of an ASCII string slice.
pub fn ascii_bytes(s: &str) -> (r: &[u8])
    requires
        vstd::string::is_ascii(s),
    ensures
        r@ == str_bytes(s),
{
    proof {
        vstd::string::is_ascii_spec_bytes(s);
        assert(s.spec_bytes() =~= str_bytes(s));
    }
    s.as_bytes()
}

/// Whether two byte slices hold the same bytes.
pub fn slices_eq(a: &[u8], b: &[u8]) -> (r: bool)
    ensures
        r == (a@ == b@),
{
    if a.len() != b.len() {
        return false;
    }
    let n = a.len();
    let mut i: usize = 0;
    loop
        invariant
            i <= n,
            n == a@.len() == b@.len(),
            forall|k: int| 0 <= k < i ==> a@[k] == b@[k],
        ensures
            i <= n,
            if i < n {
                a@[i as int] != b@[i as int]
            } else {
                forall|k: int| 0 <= k < n ==> a@[k] == b@[k]
            },
        decreases n - i,
    {
        if i == n {
            break ;
        }
        if a[i] != b[i] {
            break ;
        }
        i = i + 1;
    }
    if i == n {
        proof {
            assert(a@ =~= b@);
        }
        true
    } else {
        false
    }
}

/// A CRLF pair sits at position `i`.
pub open spec fn crlf_at(s: Seq<u8>, i: int) -> bool {
    0 <= i && i + 1 < s.len() && s[i] == CR && s[i + 1] == LF
}

/// Whether `p` is a prefix of `s`.
pub open spec fn spec_starts_with(s: Seq<u8>, p: Seq<u8>) -> bool {
    p.len() <= s.len() && (forall|i: int| 0 <= i < p.len() ==> s[i] == p[i])
}

/// Whether the slice `s` starts with the bytes of `p`.
pub fn starts_with(s: &[u8], p: &[u8]) -> (r: bool)
    ensures
        r == spec_starts_with(s@, p@),
{
    if p.len() > s.len() {
        return false;
    }
    let n = p.len();
    let mut i: usize = 0;
    loop
        invariant
            i <= n,
            n == p@.len() <= s@.len(),
            forall|k: int| 0 <= k < i ==> s@[k] == p@[k],
        ensures
            i <= n,
            if i < n {
                s@[i as int] != p@[i as int]
            } else {
                forall|k: int| 0 <= k < n ==> s@[k] == p@[k]
            },
        decreases n - i,
    {
        if i == n {
            break ;
        }
        if s[i] != p[i] {
            break ;
        }
        i = i + 1;
    }
    i == n
}

/// The decimal rendering of `n`, as bytes.
pub fn render_decimal(n: usize) -> (r: Vec<u8>)
    ensures
        r@ == dec_digits(n as nat),
    decreases n,
{
    if n < 10 {
        let mut v: Vec<u8> = Vec::new();
        v.push((n as u8) + 48);
        proof {
            assert(v@ =~= dec_digits(n as nat));
        }
        v
    } else {
        let mut v = render_decimal(n / 10);
        v.push(((n % 10) as u8) + 48);
        proof {
            assert(v@ =~= dec_digits(n as nat));
        }
        v
    }
}

} // verus!
