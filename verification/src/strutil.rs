//! String helpers: trimming splits and tolerant decimal parsing.

use vstd::prelude::*;
use vstd::string::StrSliceExecFns;

verus! {

/// ASCII whitespace as far as this library trims it.
pub open spec fn is_ws(c: char) -> bool {
    c == ' ' || c == '\t' || c == '\r' || c == '\n'
}

/// Length of the run of whitespace at the front of `s`.
pub open spec fn ws_prefix_len(s: Seq<char>) -> nat
    decreases s.len(),
{
    if s.len() > 0 && is_ws(s[0]) {
        1 + ws_prefix_len(s.skip(1))
    } else {
        0
    }
}

/// Length of the run of whitespace at the back of `s`.
pub open spec fn ws_suffix_len(s: Seq<char>) -> nat
    decreases s.len(),
{
    if s.len() > 0 && is_ws(s.last()) {
        1 + ws_suffix_len(s.drop_last())
    } else {
        0
    }
}

/// `s` with leading and trailing whitespace removed.
pub open spec fn trim_spec(s: Seq<char>) -> Seq<char> {
    if ws_prefix_len(s) == s.len() {
        Seq::empty()
    } else {
        s.subrange(ws_prefix_len(s) as int, s.len() - ws_suffix_len(s))
    }
}

/// Number of characters of `s` before the first `sep` (all of them if none).
pub open spec fn no_sep_prefix(s: Seq<char>, sep: char) -> nat
    decreases s.len(),
{
    if s.len() == 0 {
        0
    } else if s[0] == sep {
        0
    } else {
        1 + no_sep_prefix(s.skip(1), sep)
    }
}

/// `s` split on `sep`: always at least one part, empty parts kept.
pub open spec fn split_spec(s: Seq<char>, sep: char) -> Seq<Seq<char>>
    decreases s.len(),
    via split_spec_decreases
{
    let k = no_sep_prefix(s, sep);
    if k == s.len() {
        seq![s]
    } else {
        seq![s.take(k as int)] + split_spec(s.skip(k as int + 1), sep)
    }
}

proof fn lemma_no_sep_prefix_le(s: Seq<char>, sep: char)
    ensures
        no_sep_prefix(s, sep) <= s.len(),
    decreases s.len(),
{
    if s.len() > 0 && s[0] != sep {
        lemma_no_sep_prefix_le(s.skip(1), sep);
    }
}

#[via_fn]
proof fn split_spec_decreases(s: Seq<char>, sep: char) {
    lemma_no_sep_prefix_le(s, sep);
}

/// What `clean_split` returns: trim, split on `sep`, trim every part.
pub open spec fn clean_split_spec(s: Seq<char>, sep: char) -> Seq<Seq<char>> {
    split_spec(trim_spec(s), sep).map_values(|p: Seq<char>| trim_spec(p))
}

proof fn lemma_ws_prefix_is(s: Seq<char>, i: int)
    requires
        0 <= i <= s.len(),
        forall|j: int| 0 <= j < i ==> is_ws(#[trigger] s[j]),
        i == s.len() || !is_ws(s[i]),
    ensures
        ws_prefix_len(s) == i,
    decreases i,
{
    if i == 0 {
    } else {
        assert(is_ws(s[0]));
        assert(forall|j: int| 0 <= j < i - 1 ==> #[trigger] s.skip(1)[j] == s[j + 1]);
        lemma_ws_prefix_is(s.skip(1), i - 1);
    }
}

proof fn lemma_ws_suffix_is(s: Seq<char>, k: int)
    requires
        0 <= k <= s.len(),
        forall|j: int| k <= j < s.len() ==> is_ws(#[trigger] s[j]),
        k == 0 || !is_ws(s[k - 1]),
    ensures
        ws_suffix_len(s) == s.len() - k,
    decreases s.len() - k,
{
    if k == s.len() {
    } else {
        assert(is_ws(s.last()));
        assert(s.drop_last() =~= s.take(s.len() - 1));
        lemma_ws_suffix_is(s.drop_last(), k);
    }
}

proof fn lemma_ws_prefix_stop(s: Seq<char>)
    ensures
        ws_prefix_len(s) <= s.len(),
        ws_prefix_len(s) < s.len() ==> !is_ws(s[ws_prefix_len(s) as int]),
        forall|j: int| 0 <= j < ws_prefix_len(s) ==> is_ws(#[trigger] s[j]),
    decreases s.len(),
{
    if s.len() > 0 && is_ws(s[0]) {
        lemma_ws_prefix_stop(s.skip(1));
        assert(forall|j: int| 0 <= j < s.len() - 1 ==> #[trigger] s.skip(1)[j] == s[j + 1]);
        assert forall|j: int| 0 <= j < ws_prefix_len(s) implies is_ws(#[trigger] s[j]) by {
            if j > 0 {
                assert(is_ws(s.skip(1)[j - 1]));
            }
        }
    }
}

proof fn lemma_ws_suffix_stop(s: Seq<char>)
    ensures
        ws_suffix_len(s) <= s.len(),
        ws_suffix_len(s) < s.len() ==> !is_ws(s[s.len() - ws_suffix_len(s) - 1]),
        forall|j: int| s.len() - ws_suffix_len(s) <= j < s.len() ==> is_ws(#[trigger] s[j]),
    decreases s.len(),
{
    if s.len() > 0 && is_ws(s.last()) {
        lemma_ws_suffix_stop(s.drop_last());
        assert(forall|j: int| 0 <= j < s.len() - 1 ==> #[trigger] s.drop_last()[j] == s[j]);
        assert forall|j: int| s.len() - ws_suffix_len(s) <= j < s.len() implies is_ws(
            #[trigger] s[j],
        ) by {
            if j < s.len() - 1 {
                assert(is_ws(s.drop_last()[j]));
            }
        }
    }
}

/// Trimming an already-trimmed string changes nothing.
pub proof fn lemma_trim_idempotent(s: Seq<char>)
    ensures
        trim_spec(trim_spec(s)) == trim_spec(s),
{
    lemma_ws_prefix_stop(s);
    lemma_ws_suffix_stop(s);
    let t = trim_spec(s);
    if t.len() == 0 {
        assert(trim_spec(t) =~= t);
    } else {
        let p = ws_prefix_len(s) as int;
        let q = ws_suffix_len(s) as int;
        assert(p < s.len());
        assert(!is_ws(s[p]));
        assert(p < s.len() - q) by {
            if p >= s.len() - q {
                assert(is_ws(s[p]));
            }
        }
        assert(t[0] == s[p]);
        assert(!is_ws(t[0]));
        assert(t.last() == s[s.len() - q - 1]);
        assert(!is_ws(t.last()));
        assert(ws_prefix_len(t) == 0);
        assert(ws_suffix_len(t) == 0);
        assert(trim_spec(t) =~= t);
    }
}

proof fn lemma_no_sep_prefix_is(s: Seq<char>, sep: char, i: int)
    requires
        0 <= i <= s.len(),
        forall|j: int| 0 <= j < i ==> #[trigger] s[j] != sep,
        i == s.len() || s[i] == sep,
    ensures
        no_sep_prefix(s, sep) == i,
    decreases i,
{
    if i == 0 {
    } else {
        assert(forall|j: int| 0 <= j < i - 1 ==> #[trigger] s.skip(1)[j] == s[j + 1]);
        lemma_no_sep_prefix_is(s.skip(1), sep, i - 1);
    }
}

proof fn lemma_split_step(s: Seq<char>, sep: char, i: int)
    requires
        0 <= i < s.len(),
        forall|j: int| 0 <= j < i ==> #[trigger] s[j] != sep,
        s[i] == sep,
    ensures
        split_spec(s, sep) == seq![s.take(i)] + split_spec(s.skip(i + 1), sep),
{
    lemma_no_sep_prefix_is(s, sep, i);
}

proof fn lemma_split_whole(s: Seq<char>, sep: char)
    requires
        forall|j: int| 0 <= j < s.len() ==> #[trigger] s[j] != sep,
    ensures
        split_spec(s, sep) == seq![s],
{
    lemma_no_sep_prefix_is(s, sep, s.len() as int);
}

/// `s` with leading and trailing whitespace removed.
pub fn trim_str(s: &str) -> (t: String)
    ensures
        t@ == trim_spec(s@),
{
    let n = s.unicode_len();
    let mut start: usize = 0;
    while start < n && is_ws_exec(s.get_char(start))
        invariant
            start <= n == s@.len(),
            forall|j: int| 0 <= j < start ==> is_ws(#[trigger] s@[j]),
        decreases n - start,
    {
        start = start + 1;
    }
    if start == n {
        proof {
            lemma_ws_prefix_is(s@, n as int);
        }
        return String::new();
    }
    let mut end: usize = n;
    while end > start && is_ws_exec(s.get_char(end - 1))
        invariant
            start <= end <= n == s@.len(),
            forall|j: int| end <= j < n ==> is_ws(#[trigger] s@[j]),
        decreases end,
    {
        end = end - 1;
    }
    proof {
        lemma_ws_prefix_is(s@, start as int);
        assert(!is_ws(s@[end - 1]));
        lemma_ws_suffix_is(s@, end as int);
    }
    s.substring_char(start, end).to_owned()
}

/// Whether `c` is whitespace that this library trims.
pub fn is_ws_exec(c: char) -> (r: bool)
    ensures
        r == is_ws(c),
{
    c == ' ' || c == '\t' || c == '\r' || c == '\n'
}

/// Trim `s`, split it on `sep`, and trim every part.  Empty parts are kept,
/// so the result always has at least one (possibly empty) part.
pub fn clean_split(s: &str, sep: char) -> (parts: Vec<String>)
    ensures
        parts@.map_values(|p: String| p@) == clean_split_spec(s@, sep),
        parts@.len() >= 1,
{
    let trimmed = trim_str(s);
    let t: &str = trimmed.as_str();
    let n = t.unicode_len();
    let ghost full = t@;
    let mut parts: Vec<String> = Vec::new();
    let ghost mut raw_parts: Seq<Seq<char>> = Seq::empty();
    let mut start: usize = 0;
    let mut i: usize = 0;
    proof {
        assert(full.skip(0) =~= full);
        assert(raw_parts + split_spec(full, sep) =~= split_spec(full, sep));
    }
    while i < n
        invariant
            start <= i <= n == full.len(),
            t@ == full,
            full == trim_spec(s@),
            forall|j: int| start <= j < i ==> #[trigger] full[j] != sep,
            split_spec(full, sep) =~= raw_parts + split_spec(full.skip(start as int), sep),
            parts@.len() == raw_parts.len(),
            forall|k: int|
                0 <= k < raw_parts.len() ==> parts@[k]@ == trim_spec(#[trigger] raw_parts[k]),
        decreases n - i,
    {
        if t.get_char(i) == sep {
            let piece = t.substring_char(start, i);
            let piece_trimmed = trim_str(piece);
            proof {
                let u = full.skip(start as int);
                assert(forall|j: int|
                    0 <= j < i - start ==> #[trigger] u[j] == full[j + start]);
                lemma_split_step(u, sep, i - start);
                assert(u.take(i - start) =~= full.subrange(start as int, i as int));
                assert(u.skip(i - start + 1) =~= full.skip(i + 1));
                raw_parts = raw_parts.push(full.subrange(start as int, i as int));
            }
            parts.push(piece_trimmed);
            start = i + 1;
        }
        i = i + 1;
    }
    let piece = t.substring_char(start, n);
    let piece_trimmed = trim_str(piece);
    proof {
        let u = full.skip(start as int);
        assert(forall|j: int| 0 <= j < u.len() ==> #[trigger] u[j] == full[j + start]);
        lemma_split_whole(u, sep);
        assert(u =~= full.subrange(start as int, n as int));
        raw_parts = raw_parts.push(full.subrange(start as int, n as int));
    }
    parts.push(piece_trimmed);
    proof {
        assert(parts@.map_values(|p: String| p@) =~= split_spec(full, sep).map_values(
            |p: Seq<char>| trim_spec(p),
        ));
    }
    parts
}

/// Whether `s` is nonempty and all decimal digits.
pub open spec fn all_digits(s: Seq<char>) -> bool {
    s.len() > 0 && forall|j: int| 0 <= j < s.len() ==> is_digit(#[trigger] s[j])
}

/// Whether `c` is a decimal digit.
pub open spec fn is_digit(c: char) -> bool {
    48 <= c as u32 <= 57
}

/// The number that the digit string `s` denotes.
pub open spec fn dec_val(s: Seq<char>) -> nat
    decreases s.len(),
{
    if s.len() == 0 {
        0
    } else {
        dec_val(s.drop_last()) * 10 + (s.last() as u32 - 48) as nat
    }
}

proof fn lemma_dec_val_prefix_le(s: Seq<char>, i: int)
    requires
        0 <= i <= s.len(),
    ensures
        dec_val(s.take(i)) <= dec_val(s),
    decreases s.len() - i,
{
    if i == s.len() {
        assert(s.take(i) =~= s);
    } else {
        assert(s.take(i + 1).drop_last() =~= s.take(i));
        assert(dec_val(s.take(i)) <= dec_val(s.take(i + 1)));
        lemma_dec_val_prefix_le(s, i + 1);
    }
}

/// Parse `s` as a decimal number: `Some` exactly where `s` is nonempty,
/// all digits, and its value fits a `u64`.
pub fn parse_num(s: &str) -> (r: Option<u64>)
    ensures
        r == (if all_digits(s@) && dec_val(s@) <= u64::MAX {
            Some(dec_val(s@) as u64)
        } else {
            None::<u64>
        }),
{
    let n = s.unicode_len();
    if n == 0 {
        return None;
    }
    let mut acc: u64 = 0;
    let mut i: usize = 0;
    while i < n
        invariant
            i <= n == s@.len(),
            forall|j: int| 0 <= j < i ==> is_digit(#[trigger] s@[j]),
            acc == dec_val(s@.take(i as int)),
        decreases n - i,
    {
        let c = s.get_char(i);
        let u = c as u32;
        if u < 48 || u > 57 {
            return None;
        }
        let d: u64 = (u - 48) as u64;
        if acc > (u64::MAX - d) / 10 {
            proof {
                assert(s@.take(i + 1).drop_last() =~= s@.take(i as int));
                assert(dec_val(s@.take(i + 1)) == acc * 10 + d);
                assert(acc > (u64::MAX - d) / 10 ==> acc * 10 + d > u64::MAX)
                    by (nonlinear_arith);
                lemma_dec_val_prefix_le(s@, i + 1);
            }
            return None;
        }
        proof {
            assert(acc <= (u64::MAX - d) / 10 ==> acc * 10 + d <= u64::MAX)
                by (nonlinear_arith);
            assert(s@.take(i + 1).drop_last() =~= s@.take(i as int));
        }
        acc = acc * 10 + d;
        i = i + 1;
    }
    proof {
        assert(s@.take(n as int) =~= s@);
    }
    Some(acc)
}

/// Parse `s`, trimmed, as a decimal number; on anything unparseable
/// (empty, a non-digit, a value over `u64::MAX`) return `default_value`.
pub fn to_num(s: &str, default_value: u64) -> (r: u64)
    ensures
        r == ({
            let t = trim_spec(s@);
            if all_digits(t) && dec_val(t) <= u64::MAX {
                dec_val(t) as u64
            } else {
                default_value
            }
        }),
{
    let trimmed = trim_str(s);
    match parse_num(trimmed.as_str()) {
        Some(v) => v,
        None => default_value,
    }
}

/// `to_num` on the contained string; `None` gives the default.
pub fn maybe_to_num(s: &Option<String>, default_value: u64) -> (r: u64)
    ensures
        r == (match s {
            Some(inner) => {
                let t = trim_spec(inner@);
                if all_digits(t) && dec_val(t) <= u64::MAX {
                    dec_val(t) as u64
                } else {
                    default_value
                }
            },
            None => default_value,
        }),
{
    match s {
        Some(inner) => to_num(inner.as_str(), default_value),
        None => default_value,
    }
}

/// The decimal digits of `n`, most significant first.
pub open spec fn dec_bytes(n: nat) -> Seq<u8>
    decreases n,
{
    if n < 10 {
        seq![(48 + n) as u8]
    } else {
        dec_bytes(n / 10).push((48 + n % 10) as u8)
    }
}

/// Length of the run of NUL characters at the front of `s`.
pub open spec fn nul_prefix_len(s: Seq<char>) -> nat
    decreases s.len(),
{
    if s.len() > 0 && s[0] == '\0' {
        1 + nul_prefix_len(s.skip(1))
    } else {
        0
    }
}

/// Length of the run of NUL characters at the back of `s`.
pub open spec fn nul_suffix_len(s: Seq<char>) -> nat
    decreases s.len(),
{
    if s.len() > 0 && s.last() == '\0' {
        1 + nul_suffix_len(s.drop_last())
    } else {
        0
    }
}

/// `s` with leading and trailing NUL characters removed.
pub open spec fn trim_nul_spec(s: Seq<char>) -> Seq<char> {
    if nul_prefix_len(s) == s.len() {
        Seq::empty()
    } else {
        s.subrange(nul_prefix_len(s) as int, s.len() - nul_suffix_len(s))
    }
}

proof fn lemma_nul_prefix_is(s: Seq<char>, i: int)
    requires
        0 <= i <= s.len(),
        forall|j: int| 0 <= j < i ==> #[trigger] s[j] == '\0',
        i == s.len() || s[i] != '\0',
    ensures
        nul_prefix_len(s) == i,
    decreases i,
{
    if i == 0 {
    } else {
        assert(forall|j: int| 0 <= j < s.len() - 1 ==> #[trigger] s.skip(1)[j] == s[j + 1]);
        lemma_nul_prefix_is(s.skip(1), i - 1);
    }
}

proof fn lemma_nul_suffix_is(s: Seq<char>, k: int)
    requires
        0 <= k <= s.len(),
        forall|j: int| k <= j < s.len() ==> #[trigger] s[j] == '\0',
        k == 0 || s[k - 1] != '\0',
    ensures
        nul_suffix_len(s) == s.len() - k,
    decreases s.len() - k,
{
    if k == s.len() {
    } else {
        assert(s.drop_last() =~= s.take(s.len() - 1));
        lemma_nul_suffix_is(s.drop_last(), k);
    }
}

/// `s` with leading and trailing NUL characters removed (servers have
/// been seen padding values with them).
pub fn trim_nul(s: &str) -> (t: String)
    ensures
        t@ == trim_nul_spec(s@),
{
    let n = s.unicode_len();
    let mut start: usize = 0;
    while start < n && s.get_char(start) == '\0'
        invariant
            start <= n == s@.len(),
            forall|j: int| 0 <= j < start ==> #[trigger] s@[j] == '\0',
        decreases n - start,
    {
        start = start + 1;
    }
    if start == n {
        proof {
            lemma_nul_prefix_is(s@, n as int);
        }
        return String::new();
    }
    let mut end: usize = n;
    while end > start && s.get_char(end - 1) == '\0'
        invariant
            start <= end <= n == s@.len(),
            forall|j: int| end <= j < n ==> #[trigger] s@[j] == '\0',
        decreases end,
    {
        end = end - 1;
    }
    proof {
        lemma_nul_prefix_is(s@, start as int);
        assert(s@[end - 1] != '\0');
        lemma_nul_suffix_is(s@, end as int);
    }
    s.substring_char(start, end).to_owned()
}

/// Relies on String::from_utf8: decodes UTF-8 bytes into a string, and
/// fails exactly on input that is not valid UTF-8.
#[verifier::external_body]
pub fn bytes_to_string(bytes: Vec<u8>) -> (r: Option<String>)
    ensures
        match r {
            Some(s) => vstd::utf8::valid_utf8(bytes@) && s@ == vstd::utf8::decode_utf8(bytes@),
            None => !vstd::utf8::valid_utf8(bytes@),
        },
{
    String::from_utf8(bytes).ok()
}

/// Whether two strings hold the same characters.
pub fn str_eq(a: &str, b: &str) -> (r: bool)
    ensures
        r == (a@ == b@),
{
    let na = a.unicode_len();
    let nb = b.unicode_len();
    if na != nb {
        return false;
    }
    let mut i: usize = 0;
    while i < na
        invariant
            i <= na == a@.len(),
            na == nb == b@.len(),
            forall|j: int| 0 <= j < i ==> a@[j] == #[trigger] b@[j],
        decreases na - i,
    {
        if a.get_char(i) != b.get_char(i) {
            return false;
        }
        i = i + 1;
    }
    proof {
        assert(a@ =~= b@);
    }
    true
}

/// Whether two byte slices hold the same bytes.
pub fn bytes_eq(a: &[u8], b: &[u8]) -> (r: bool)
    ensures
        r == (a@ == b@),
{
    if a.len() != b.len() {
        return false;
    }
    let mut i: usize = 0;
    while i < a.len()
        invariant
            i <= a@.len() == b@.len(),
            forall|j: int| 0 <= j < i ==> a@[j] == #[trigger] b@[j],
        decreases a@.len() - i,
    {
        if a[i] != b[i] {
            return false;
        }
        i = i + 1;
    }
    proof {
        assert(a@ =~= b@);
    }
    true
}

/// The decimal digits of `n` as characters, most significant first.
pub open spec fn dec_chars(n: nat) -> Seq<char>
    decreases n,
{
    if n < 10 {
        seq![digit_char(n)]
    } else {
        dec_chars(n / 10).push(digit_char(n % 10))
    }
}

/// The character for the decimal digit `d`.
pub open spec fn digit_char(d: nat) -> char {
    if d == 0 { '0' }
    else if d == 1 { '1' }
    else if d == 2 { '2' }
    else if d == 3 { '3' }
    else if d == 4 { '4' }
    else if d == 5 { '5' }
    else if d == 6 { '6' }
    else if d == 7 { '7' }
    else if d == 8 { '8' }
    else { '9' }
}

/// The one-character string for the decimal digit `d`.
pub fn digit_str(d: u64) -> (r: &'static str)
    requires
        d < 10,
    ensures
        r@ =~= seq![digit_char(d as nat)],
{
    proof {
        reveal_strlit("0");
        reveal_strlit("1");
        reveal_strlit("2");
        reveal_strlit("3");
        reveal_strlit("4");
        reveal_strlit("5");
        reveal_strlit("6");
        reveal_strlit("7");
        reveal_strlit("8");
        reveal_strlit("9");
    }
    if d == 0 { "0" }
    else if d == 1 { "1" }
    else if d == 2 { "2" }
    else if d == 3 { "3" }
    else if d == 4 { "4" }
    else if d == 5 { "5" }
    else if d == 6 { "6" }
    else if d == 7 { "7" }
    else if d == 8 { "8" }
    else { "9" }
}

/// Append the decimal digits of `value` to `out`.
pub fn push_dec_chars(out: &mut String, value: u64)
    ensures
        final(out)@ == old(out)@ + dec_chars(value as nat),
    decreases value,
{
    if value < 10 {
        out.append(digit_str(value));
        assert(out@ =~= old(out)@ + dec_chars(value as nat));
    } else {
        push_dec_chars(out, value / 10);
        out.append(digit_str(value % 10));
        assert(out@ =~= old(out)@ + dec_chars(value as nat));
    }
}

/// The decimal formatter and the decimal parser agree: formatting a
/// number gives a pure digit string that parses back to the number.
pub proof fn lemma_dec_chars_value(n: nat)
    ensures
        all_digits(dec_chars(n)),
        dec_val(dec_chars(n)) == n,
    decreases n,
{
    if n < 10 {
        assert(is_digit(digit_char(n)));
        assert(digit_char(n) as u32 == 48 + n);
        assert(dec_chars(n).drop_last() =~= Seq::<char>::empty());
        assert(dec_val(Seq::<char>::empty()) == 0);
        assert(dec_val(dec_chars(n)) == n);
    } else {
        lemma_dec_chars_value(n / 10);
        assert(dec_chars(n).drop_last() =~= dec_chars(n / 10));
        assert(dec_chars(n).last() == digit_char(n % 10));
        assert(is_digit(digit_char(n % 10)));
        assert(dec_val(dec_chars(n)) == dec_val(dec_chars(n / 10)) * 10 + n % 10);
        assert(forall|j: int|
            0 <= j < dec_chars(n).len() - 1 ==> #[trigger] dec_chars(n)[j] == dec_chars(
                n / 10,
            )[j]);
        assert(all_digits(dec_chars(n)));
    }
}

/// The decimal byte formatter writes ASCII digits and nothing else.
pub proof fn lemma_dec_bytes_digits(n: nat)
    ensures
        dec_bytes(n).len() >= 1,
        forall|i: int| 0 <= i < dec_bytes(n).len() ==> 48 <= #[trigger] dec_bytes(n)[i] <= 57,
    decreases n,
{
    if n < 10 {
    } else {
        lemma_dec_bytes_digits(n / 10);
        assert(forall|i: int|
            0 <= i < dec_bytes(n).len() - 1 ==> #[trigger] dec_bytes(n)[i] == dec_bytes(
                n / 10,
            )[i]);
    }
}

/// Append the decimal digits of `value` to `buf`.
pub fn push_dec_u64(buf: &mut Vec<u8>, value: u64)
    ensures
        final(buf)@ == old(buf)@ + dec_bytes(value as nat),
    decreases value,
{
    if value < 10 {
        buf.push((48 + value) as u8);
        assert(buf@ =~= old(buf)@ + dec_bytes(value as nat));
    } else {
        push_dec_u64(buf, value / 10);
        buf.push(48 + (value % 10) as u8);
        assert(buf@ =~= old(buf)@ + dec_bytes(value as nat));
    }
}

} // verus!
