//! The persisted file format: a pretty-printed JSON object holding the
//! installation record, written and read by this module alone. The writer
//! produces exactly the text `json_of` describes; the reader accepts
//! exactly that grammar and recovers the record, so that reading back a
//! written record yields the record itself.

use vstd::prelude::*;
use crate::state::{BackupInfo, BackupView, InstallState, StateView};

verus! {

use vstd::string::StrSliceExecFns;
use vstd::string::StringExecFns;

// ---------------------------------------------------------------------
// Positions and prefixes.
// ---------------------------------------------------------------------

/// The text `p` stands in `s` beginning at position `i`.
pub open spec fn starts_with_at(s: Seq<char>, i: int, p: Seq<char>) -> bool {
    &&& 0 <= i
    &&& i + p.len() <= s.len()
    &&& s.subrange(i, i + p.len()) == p
}

proof fn lemma_starts_index(s: Seq<char>, i: int, p: Seq<char>, k: int)
    requires
        starts_with_at(s, i, p),
        0 <= k < p.len(),
    ensures
        s[i + k] == p[k],
{
    assert(s.subrange(i, i + p.len())[k] == s[i + k]);
}

proof fn lemma_starts_split(s: Seq<char>, i: int, p: Seq<char>, q: Seq<char>)
    requires
        starts_with_at(s, i, p + q),
    ensures
        starts_with_at(s, i, p),
        starts_with_at(s, i + p.len(), q),
{
    assert forall|k: int| 0 <= k < p.len() implies s.subrange(i, i + p.len())[k] == p[k] by {
        lemma_starts_index(s, i, p + q, k);
        assert((p + q)[k] == p[k]);
    }
    assert(s.subrange(i, i + p.len()) =~= p);
    let j = i + p.len();
    assert forall|k: int| 0 <= k < q.len() implies s.subrange(j, j + q.len())[k] == q[k] by {
        lemma_starts_index(s, i, p + q, p.len() + k);
        assert((p + q)[p.len() + k] == q[k]);
    }
    assert(s.subrange(j, j + q.len()) =~= q);
}

// ---------------------------------------------------------------------
// String values: escaping and scanning.
// ---------------------------------------------------------------------

/// How one character appears inside a quoted string: quotes and
/// backslashes carry a backslash before them, everything else stands as
/// itself.
pub open spec fn escape_char(c: char) -> Seq<char> {
    if c == '"' || c == '\\' {
        seq!['\\', c]
    } else {
        seq![c]
    }
}

/// The body of a quoted string: each character escaped.
pub open spec fn escape_str(s: Seq<char>) -> Seq<char>
    decreases s.len(),
{
    if s.len() == 0 {
        Seq::<char>::empty()
    } else {
        escape_char(s[0]) + escape_str(s.skip(1))
    }
}

/// A complete quoted string value.
pub open spec fn quoted(s: Seq<char>) -> Seq<char> {
    seq!['"'] + escape_str(s) + seq!['"']
}

/// Scans the body of a quoted string starting at `i` (just past the
/// opening quote), resolving escapes, up to the terminating quote; yields
/// the accumulated value and the position just past the closing quote.
pub open spec fn scan_string(s: Seq<char>, i: int, acc: Seq<char>) -> Option<(Seq<char>, int)>
    decreases s.len() - i,
{
    if i < 0 || i >= s.len() {
        None
    } else if s[i] == '"' {
        Some((acc, i + 1))
    } else if s[i] == '\\' {
        if i + 1 < s.len() && (s[i + 1] == '"' || s[i + 1] == '\\') {
            scan_string(s, i + 2, acc.push(s[i + 1]))
        } else {
            None
        }
    } else {
        scan_string(s, i + 1, acc.push(s[i]))
    }
}

pub proof fn lemma_scan_string_bounds(s: Seq<char>, i: int, acc: Seq<char>)
    requires
        scan_string(s, i, acc) is Some,
    ensures
        i < scan_string(s, i, acc).unwrap().1 <= s.len(),
    decreases s.len() - i,
{
    if s[i] == '"' {
    } else if s[i] == '\\' {
        lemma_scan_string_bounds(s, i + 2, acc.push(s[i + 1]));
    } else {
        lemma_scan_string_bounds(s, i + 1, acc.push(s[i]));
    }
}

/// Scanning what `escape_str` produced, with the closing quote after it,
/// recovers the original text exactly.
proof fn lemma_scan_escape(s: Seq<char>, i: int, t: Seq<char>, acc: Seq<char>)
    requires
        starts_with_at(s, i, escape_str(t) + seq!['"']),
    ensures
        scan_string(s, i, acc) == Some::<(Seq<char>, int)>(
            (acc + t, i + escape_str(t).len() + 1),
        ),
    decreases t.len(),
{
    if t.len() == 0 {
        lemma_starts_index(s, i, escape_str(t) + seq!['"'], 0);
        assert(s[i] == '"');
        assert(acc + t =~= acc);
    } else {
        let c = t[0];
        let rest_pat = escape_str(t.skip(1)) + seq!['"'];
        assert(escape_str(t) + seq!['"'] =~= escape_char(c) + rest_pat);
        lemma_starts_split(s, i, escape_char(c), rest_pat);
        if c == '"' || c == '\\' {
            lemma_starts_index(s, i, escape_char(c), 0);
            lemma_starts_index(s, i, escape_char(c), 1);
            assert(s[i] == '\\');
            assert(s[i + 1] == c);
            lemma_scan_escape(s, i + 2, t.skip(1), acc.push(c));
            assert(acc.push(c) + t.skip(1) =~= acc + t);
        } else {
            lemma_starts_index(s, i, escape_char(c), 0);
            assert(s[i] == c);
            lemma_scan_escape(s, i + 1, t.skip(1), acc.push(c));
            assert(acc.push(c) + t.skip(1) =~= acc + t);
        }
    }
}

// ---------------------------------------------------------------------
// Numbers: decimal digits and scanning.
// ---------------------------------------------------------------------

/// Whether `c` is a decimal digit.
pub open spec fn is_digit(c: char) -> bool {
    48 <= c as u32 <= 57
}

/// The value of a digit character.
pub open spec fn digit_val(c: char) -> int {
    c as u32 - 48
}

/// The character for a digit value.
pub open spec fn digit_char(d: int) -> char {
    if d == 0 {
        '0'
    } else if d == 1 {
        '1'
    } else if d == 2 {
        '2'
    } else if d == 3 {
        '3'
    } else if d == 4 {
        '4'
    } else if d == 5 {
        '5'
    } else if d == 6 {
        '6'
    } else if d == 7 {
        '7'
    } else if d == 8 {
        '8'
    } else {
        '9'
    }
}

/// The decimal digits of `n`, most significant first.
pub open spec fn dec_digits(n: nat) -> Seq<char>
    decreases n,
{
    if n < 10 {
        seq![digit_char(n as int)]
    } else {
        dec_digits(n / 10) + seq![digit_char((n % 10) as int)]
    }
}

/// The text of a signed number: a minus sign before the magnitude when
/// negative.
pub open spec fn int_repr(n: int) -> Seq<char> {
    if n >= 0 {
        dec_digits(n as nat)
    } else {
        seq!['-'] + dec_digits((-n) as nat)
    }
}

/// Scans a run of digits from `i`, accumulating their value onto `acc`;
/// stops at the first non-digit (or the end) and yields the value and that
/// position.
pub open spec fn scan_digits(s: Seq<char>, i: int, acc: nat) -> (nat, int)
    decreases s.len() - i,
{
    if 0 <= i < s.len() && is_digit(s[i]) {
        scan_digits(s, i + 1, acc * 10 + digit_val(s[i]) as nat)
    } else {
        (acc, i)
    }
}

/// An unsigned number: at least one digit, value within `u64`.
pub open spec fn scan_u64(s: Seq<char>, i: int) -> Option<(u64, int)> {
    if 0 <= i < s.len() && is_digit(s[i]) {
        let (n, j) = scan_digits(s, i, 0);
        if n <= u64::MAX {
            Some((n as u64, j))
        } else {
            None
        }
    } else {
        None
    }
}

/// A signed number: an optional minus sign, then digits, value within
/// `i64`.
pub open spec fn scan_i64(s: Seq<char>, i: int) -> Option<(i64, int)> {
    if 0 <= i < s.len() && s[i] == '-' {
        if i + 1 < s.len() && is_digit(s[i + 1]) {
            let (n, j) = scan_digits(s, i + 1, 0);
            if n <= 0x8000_0000_0000_0000 {
                Some(((-(n as int)) as i64, j))
            } else {
                None
            }
        } else {
            None
        }
    } else if 0 <= i < s.len() && is_digit(s[i]) {
        let (n, j) = scan_digits(s, i, 0);
        if n <= i64::MAX {
            Some((n as i64, j))
        } else {
            None
        }
    } else {
        None
    }
}

proof fn lemma_digit_char_val(d: int)
    requires
        0 <= d < 10,
    ensures
        is_digit(digit_char(d)),
        digit_val(digit_char(d)) == d,
{
}

/// Every character of `dec_digits` is a digit.
proof fn lemma_dec_digits_are_digits(n: nat)
    ensures
        dec_digits(n).len() >= 1,
        forall|k: int| 0 <= k < dec_digits(n).len() ==> is_digit(#[trigger] dec_digits(n)[k]),
    decreases n,
{
    if n < 10 {
        lemma_digit_char_val(n as int);
    } else {
        lemma_dec_digits_are_digits(n / 10);
        lemma_digit_char_val((n % 10) as int);
        assert forall|k: int| 0 <= k < dec_digits(n).len() implies is_digit(
            #[trigger] dec_digits(n)[k],
        ) by {
            if k < dec_digits(n / 10).len() {
                assert(dec_digits(n)[k] == dec_digits(n / 10)[k]);
            } else {
                assert(dec_digits(n)[k] == digit_char((n % 10) as int));
            }
        }
    }
}

pub open spec fn pow10(k: nat) -> nat
    decreases k,
{
    if k == 0 {
        1
    } else {
        10 * pow10((k - 1) as nat)
    }
}

/// Scanning over the digits of `n` folds `n` onto the accumulator and
/// continues just past them.
proof fn lemma_scan_digits_prefix(s: Seq<char>, i: int, n: nat, acc: nat)
    requires
        starts_with_at(s, i, dec_digits(n)),
    ensures
        scan_digits(s, i, acc) == scan_digits(
            s,
            i + dec_digits(n).len(),
            acc * pow10(dec_digits(n).len()) + n,
        ),
    decreases n,
{
    lemma_dec_digits_are_digits(n);
    if n < 10 {
        lemma_starts_index(s, i, dec_digits(n), 0);
        lemma_digit_char_val(n as int);
        assert(s[i] == digit_char(n as int));
        assert(scan_digits(s, i, acc) == scan_digits(s, i + 1, acc * 10 + n));
        assert(pow10(0) == 1);
        assert(pow10(1) == 10);
    } else {
        let hi = dec_digits(n / 10);
        let lo = seq![digit_char((n % 10) as int)];
        assert(dec_digits(n) =~= hi + lo);
        lemma_starts_split(s, i, hi, lo);
        lemma_scan_digits_prefix(s, i, n / 10, acc);
        let l1 = hi.len();
        let a1 = acc * pow10(l1) + n / 10;
        lemma_starts_index(s, i + l1, lo, 0);
        lemma_digit_char_val((n % 10) as int);
        assert(s[i + l1] == digit_char((n % 10) as int));
        assert(is_digit(s[i + l1]));
        assert(scan_digits(s, i + l1, a1) == scan_digits(s, i + l1 + 1, a1 * 10 + n % 10));
        assert(a1 * 10 + n % 10 == acc * pow10(l1 + 1) + n) by (nonlinear_arith)
            requires
                a1 == acc * pow10(l1) + n / 10,
                pow10(l1 + 1) == 10 * pow10(l1),
                n == 10 * (n / 10) + n % 10,
        {}
        assert(pow10(l1 + 1) == 10 * pow10(l1));
        assert(dec_digits(n).len() == l1 + 1);
    }
}

/// Scanning an unsigned number written by `dec_digits`, with a non-digit
/// right after it, yields exactly that number.
proof fn lemma_scan_u64(s: Seq<char>, i: int, m: u64)
    requires
        starts_with_at(s, i, dec_digits(m as nat)),
        i + dec_digits(m as nat).len() < s.len(),
        !is_digit(s[i + dec_digits(m as nat).len()]),
    ensures
        scan_u64(s, i) == Some::<(u64, int)>((m, i + dec_digits(m as nat).len())),
{
    lemma_dec_digits_are_digits(m as nat);
    lemma_starts_index(s, i, dec_digits(m as nat), 0);
    lemma_scan_digits_prefix(s, i, m as nat, 0);
    let j = i + dec_digits(m as nat).len();
    assert(scan_digits(s, j, (0 * pow10(dec_digits(m as nat).len()) + m as nat) as nat) == (
    m as nat,
    j,
    ));
}

/// The same for a signed number written by `int_repr`.
proof fn lemma_scan_i64(s: Seq<char>, i: int, m: i64)
    requires
        starts_with_at(s, i, int_repr(m as int)),
        i + int_repr(m as int).len() < s.len(),
        !is_digit(s[i + int_repr(m as int).len()]),
    ensures
        scan_i64(s, i) == Some::<(i64, int)>((m, i + int_repr(m as int).len())),
{
    if m >= 0 {
        lemma_dec_digits_are_digits(m as nat);
        lemma_starts_index(s, i, dec_digits(m as nat), 0);
        lemma_scan_digits_prefix(s, i, m as nat, 0);
        let j = i + dec_digits(m as nat).len();
        assert(scan_digits(s, j, (0 * pow10(dec_digits(m as nat).len()) + m as nat) as nat) == (
        m as nat,
        j,
        ));
        assert(s[i] != '-');
    } else {
        let mag = (-(m as int)) as nat;
        lemma_dec_digits_are_digits(mag);
        assert(int_repr(m as int) =~= seq!['-'] + dec_digits(mag));
        lemma_starts_split(s, i, seq!['-'], dec_digits(mag));
        lemma_starts_index(s, i, seq!['-'], 0);
        assert(s[i] == '-');
        lemma_starts_index(s, i + 1, dec_digits(mag), 0);
        lemma_scan_digits_prefix(s, i + 1, mag, 0);
        let j = i + 1 + dec_digits(mag).len();
        assert(scan_digits(s, j, (0 * pow10(dec_digits(mag).len()) + mag) as nat) == (mag, j));
        assert(mag <= 0x8000_0000_0000_0000);
    }
}

proof fn lemma_scan_digits_bounds(s: Seq<char>, i: int, acc: nat)
    ensures
        scan_digits(s, i, acc).1 >= i,
        i <= s.len() ==> scan_digits(s, i, acc).1 <= s.len(),
    decreases s.len() - i,
{
    if 0 <= i < s.len() && is_digit(s[i]) {
        lemma_scan_digits_bounds(s, i + 1, acc * 10 + digit_val(s[i]) as nat);
    }
}

// ---------------------------------------------------------------------
// Booleans.
// ---------------------------------------------------------------------

/// The text of a boolean value.
pub open spec fn bool_text(b: bool) -> Seq<char> {
    if b {
        "true"@
    } else {
        "false"@
    }
}

/// A boolean value: one of the two keywords.
pub open spec fn parse_bool(s: Seq<char>, i: int) -> Option<(bool, int)> {
    if starts_with_at(s, i, "true"@) {
        Some((true, i + "true"@.len()))
    } else if starts_with_at(s, i, "false"@) {
        Some((false, i + "false"@.len()))
    } else {
        None
    }
}

proof fn lemma_parse_bool(s: Seq<char>, i: int, b: bool)
    requires
        starts_with_at(s, i, bool_text(b)),
    ensures
        parse_bool(s, i) == Some::<(bool, int)>((b, i + bool_text(b).len())),
{
    reveal_strlit("true");
    reveal_strlit("false");
    if !b {
        if starts_with_at(s, i, "true"@) {
            lemma_starts_index(s, i, "true"@, 0);
            lemma_starts_index(s, i, "false"@, 0);
            assert(false);
        }
    }
}

// ---------------------------------------------------------------------
// Arrays of strings.
// ---------------------------------------------------------------------

/// The elements of a non-empty string array, separated by a comma and a
/// space.
pub open spec fn str_items_text(xs: Seq<Seq<char>>) -> Seq<char>
    decreases xs.len(),
{
    if xs.len() == 0 {
        Seq::<char>::empty()
    } else if xs.len() == 1 {
        quoted(xs[0])
    } else {
        quoted(xs[0]) + ", "@ + str_items_text(xs.skip(1))
    }
}

/// A complete string array value.
pub open spec fn str_array_text(xs: Seq<Seq<char>>) -> Seq<char> {
    if xs.len() == 0 {
        "[]"@
    } else {
        "["@ + str_items_text(xs) + "]"@
    }
}

/// Scans the elements of a non-empty string array from `i` (just past the
/// opening bracket), up to and past the closing bracket.
pub open spec fn scan_str_items(s: Seq<char>, i: int, acc: Seq<Seq<char>>) -> Option<
    (Seq<Seq<char>>, int),
>
    decreases s.len() - i,
{
    if 0 <= i < s.len() && s[i] == '"' {
        match scan_string(s, i + 1, Seq::<char>::empty()) {
            Some((t, j)) => if j < s.len() && s[j] == ']' {
                Some((acc.push(t), j + 1))
            } else if j + 1 < s.len() && s[j] == ',' && s[j + 1] == ' ' {
                proof {
                    lemma_scan_string_bounds(s, i + 1, Seq::<char>::empty());
                }
                scan_str_items(s, j + 2, acc.push(t))
            } else {
                None
            },
            None => None,
        }
    } else {
        None
    }
}

/// A string array value: empty brackets or scanned elements.
pub open spec fn scan_str_array(s: Seq<char>, i: int) -> Option<(Seq<Seq<char>>, int)> {
    if 0 <= i < s.len() && s[i] == '[' {
        if i + 1 < s.len() && s[i + 1] == ']' {
            Some((Seq::<Seq<char>>::empty(), i + 2))
        } else {
            scan_str_items(s, i + 1, Seq::<Seq<char>>::empty())
        }
    } else {
        None
    }
}

/// Scanning the written elements of a non-empty array, with the closing
/// bracket after them, recovers the elements exactly.
proof fn lemma_scan_str_items(s: Seq<char>, i: int, xs: Seq<Seq<char>>, acc: Seq<Seq<char>>)
    requires
        xs.len() >= 1,
        starts_with_at(s, i, str_items_text(xs) + seq![']']),
    ensures
        scan_str_items(s, i, acc) == Some::<(Seq<Seq<char>>, int)>(
            (acc + xs, i + str_items_text(xs).len() + 1),
        ),
    decreases xs.len(),
{
    reveal_strlit(", ");
    let q = quoted(xs[0]);
    let esc_pat = escape_str(xs[0]) + seq!['"'];
    if xs.len() == 1 {
        assert(str_items_text(xs) + seq![']'] =~= seq!['"'] + (esc_pat + seq![']']));
        lemma_starts_split(s, i, seq!['"'], esc_pat + seq![']']);
        lemma_starts_index(s, i, seq!['"'], 0);
        assert(s[i] == '"');
        lemma_starts_split(s, i + 1, esc_pat, seq![']']);
        lemma_scan_escape(s, i + 1, xs[0], Seq::<char>::empty());
        let j = i + 1 + escape_str(xs[0]).len() + 1;
        lemma_starts_index(s, j, seq![']'], 0);
        assert(s[j] == ']');
        assert(Seq::<char>::empty() + xs[0] =~= xs[0]);
        assert(acc.push(xs[0]) =~= acc + xs);
    } else {
        let rest = str_items_text(xs.skip(1)) + seq![']'];
        assert(str_items_text(xs) + seq![']'] =~= seq!['"'] + (esc_pat + (", "@ + rest)));
        lemma_starts_split(s, i, seq!['"'], esc_pat + (", "@ + rest));
        lemma_starts_index(s, i, seq!['"'], 0);
        assert(s[i] == '"');
        lemma_starts_split(s, i + 1, esc_pat, ", "@ + rest);
        lemma_scan_escape(s, i + 1, xs[0], Seq::<char>::empty());
        assert(Seq::<char>::empty() + xs[0] =~= xs[0]);
        let j = i + 1 + escape_str(xs[0]).len() + 1;
        lemma_starts_split(s, j, ", "@, rest);
        lemma_starts_index(s, j, ", "@, 0);
        lemma_starts_index(s, j, ", "@, 1);
        assert(s[j] == ',');
        assert(s[j + 1] == ' ');
        lemma_scan_str_items(s, j + 2, xs.skip(1), acc.push(xs[0]));
        assert(acc.push(xs[0]) + xs.skip(1) =~= acc + xs);
        assert(str_items_text(xs).len() == q.len() + 2 + str_items_text(xs.skip(1)).len());
    }
}

/// Scanning a written string array recovers it exactly.
proof fn lemma_scan_str_array(s: Seq<char>, i: int, xs: Seq<Seq<char>>)
    requires
        starts_with_at(s, i, str_array_text(xs)),
    ensures
        scan_str_array(s, i) == Some::<(Seq<Seq<char>>, int)>(
            (xs, i + str_array_text(xs).len()),
        ),
{
    reveal_strlit("[]");
    reveal_strlit("[");
    reveal_strlit("]");
    if xs.len() == 0 {
        lemma_starts_index(s, i, "[]"@, 0);
        lemma_starts_index(s, i, "[]"@, 1);
        assert(s[i] == '[');
        assert(s[i + 1] == ']');
    } else {
        let body = str_items_text(xs);
        assert("]"@ =~= seq![']']);
        assert(str_array_text(xs) =~= "["@ + (body + seq![']']));
        lemma_starts_split(s, i, "["@, body + seq![']']);
        lemma_starts_index(s, i, "["@, 0);
        assert(s[i] == '[');
        lemma_scan_str_items(s, i + 1, xs, Seq::<Seq<char>>::empty());
        assert(Seq::<Seq<char>>::empty() + xs =~= xs);
        lemma_starts_index(s, i + 1, body + seq![']'], 0);
        assert((body + seq![']'])[0] == body[0]);
        assert(body[0] == quoted(xs[0])[0]);
        assert(quoted(xs[0])[0] == '"');
        assert(s[i + 1] == '"');
        assert(s[i + 1] != ']');
    }
}

// ---------------------------------------------------------------------
// Backup objects and their array.
// ---------------------------------------------------------------------

/// The key texts of the document, each carrying the separator that
/// precedes it.
pub open spec fn key_path() -> Seq<char> {
    "{\"path\": "@
}

pub open spec fn key_timestamp() -> Seq<char> {
    ", \"timestamp\": "@
}

pub open spec fn key_size() -> Seq<char> {
    ", \"size_bytes\": "@
}

/// The text of one backup object.
pub open spec fn backup_text(b: BackupView) -> Seq<char> {
    key_path() + quoted(b.path) + key_timestamp() + int_repr(b.timestamp) + key_size()
        + dec_digits(b.size_bytes as nat) + seq!['}']
}

/// The elements of a non-empty backup array.
pub open spec fn backup_items_text(bs: Seq<BackupView>) -> Seq<char>
    decreases bs.len(),
{
    if bs.len() == 0 {
        Seq::<char>::empty()
    } else if bs.len() == 1 {
        backup_text(bs[0])
    } else {
        backup_text(bs[0]) + ", "@ + backup_items_text(bs.skip(1))
    }
}

/// A complete backup array value.
pub open spec fn backup_array_text(bs: Seq<BackupView>) -> Seq<char> {
    if bs.len() == 0 {
        "[]"@
    } else {
        "["@ + backup_items_text(bs) + "]"@
    }
}

/// The literal text `p` stands at `i`: consumed, yielding the position
/// after it.
pub open spec fn parse_lit(s: Seq<char>, i: int, p: Seq<char>) -> Option<int> {
    if starts_with_at(s, i, p) {
        Some(i + p.len())
    } else {
        None
    }
}

/// One backup object: its three fields in order inside braces.
pub open spec fn scan_backup(s: Seq<char>, i: int) -> Option<(BackupView, int)> {
    match parse_lit(s, i, key_path()) {
        Some(i1) => if i1 < s.len() && s[i1] == '"' {
            match scan_string(s, i1 + 1, Seq::<char>::empty()) {
                Some((p, i2)) => match parse_lit(s, i2, key_timestamp()) {
                    Some(i3) => match scan_i64(s, i3) {
                        Some((t, i4)) => match parse_lit(s, i4, key_size()) {
                            Some(i5) => match scan_u64(s, i5) {
                                Some((z, i6)) => if i6 < s.len() && s[i6] == '}' {
                                    Some(
                                        (
                                            BackupView {
                                                path: p,
                                                timestamp: t as int,
                                                size_bytes: z,
                                            },
                                            i6 + 1,
                                        ),
                                    )
                                } else {
                                    None
                                },
                                None => None,
                            },
                            None => None,
                        },
                        None => None,
                    },
                    None => None,
                },
                None => None,
            }
        } else {
            None
        },
        None => None,
    }
}

pub proof fn lemma_scan_backup_bounds(s: Seq<char>, i: int)
    requires
        scan_backup(s, i) is Some,
    ensures
        i < scan_backup(s, i).unwrap().1 <= s.len(),
{
    let i1 = parse_lit(s, i, key_path()).unwrap();
    lemma_scan_string_bounds(s, i1 + 1, Seq::<char>::empty());
    let i2 = scan_string(s, i1 + 1, Seq::<char>::empty()).unwrap().1;
    let i3 = parse_lit(s, i2, key_timestamp()).unwrap();
    if s[i3] == '-' {
        lemma_scan_digits_bounds(s, i3 + 1, 0);
    } else {
        lemma_scan_digits_bounds(s, i3, 0);
    }
    let i4 = scan_i64(s, i3).unwrap().1;
    let i5 = parse_lit(s, i4, key_size()).unwrap();
    lemma_scan_digits_bounds(s, i5, 0);
}

/// Scans the elements of a non-empty backup array from `i` (just past the
/// opening bracket), up to and past the closing bracket.
pub open spec fn scan_backup_items(s: Seq<char>, i: int, acc: Seq<BackupView>) -> Option<
    (Seq<BackupView>, int),
>
    decreases s.len() - i,
{
    match scan_backup(s, i) {
        Some((b, j)) => if j < s.len() && s[j] == ']' {
            Some((acc.push(b), j + 1))
        } else if j + 1 < s.len() && s[j] == ',' && s[j + 1] == ' ' {
            proof {
                lemma_scan_backup_bounds(s, i);
            }
            scan_backup_items(s, j + 2, acc.push(b))
        } else {
            None
        },
        None => None,
    }
}

/// A backup array value: empty brackets or scanned elements.
pub open spec fn scan_backup_array(s: Seq<char>, i: int) -> Option<(Seq<BackupView>, int)> {
    if 0 <= i < s.len() && s[i] == '[' {
        if i + 1 < s.len() && s[i + 1] == ']' {
            Some((Seq::<BackupView>::empty(), i + 2))
        } else {
            scan_backup_items(s, i + 1, Seq::<BackupView>::empty())
        }
    } else {
        None
    }
}

/// The timestamps a record can carry: what fits the stored integer type.
pub open spec fn backup_in_range(b: BackupView) -> bool {
    i64::MIN <= b.timestamp <= i64::MAX
}

/// Scanning a written backup object recovers it exactly.
proof fn lemma_scan_backup(s: Seq<char>, i: int, b: BackupView)
    requires
        backup_in_range(b),
        starts_with_at(s, i, backup_text(b)),
    ensures
        scan_backup(s, i) == Some::<(BackupView, int)>((b, i + backup_text(b).len())),
{
    reveal_strlit("{\"path\": ");
    reveal_strlit(", \"timestamp\": ");
    reveal_strlit(", \"size_bytes\": ");
    let esc_pat = escape_str(b.path) + seq!['"'];
    let seg3 = int_repr(b.timestamp);
    let seg5 = dec_digits(b.size_bytes as nat);
    let whole = backup_text(b);
    // Peel the segments off the left-associated concatenation, right to
    // left, so that each piece stands at its own offset.
    let l6 = key_path() + quoted(b.path) + key_timestamp() + seg3 + key_size() + seg5;
    let l5 = key_path() + quoted(b.path) + key_timestamp() + seg3 + key_size();
    let l4 = key_path() + quoted(b.path) + key_timestamp() + seg3;
    let l3 = key_path() + quoted(b.path) + key_timestamp();
    let l2 = key_path() + quoted(b.path);
    lemma_starts_split(s, i, l6, seq!['}']);
    lemma_starts_split(s, i, l5, seg5);
    lemma_starts_split(s, i, l4, key_size());
    lemma_starts_split(s, i, l3, seg3);
    lemma_starts_split(s, i, l2, key_timestamp());
    lemma_starts_split(s, i, key_path(), quoted(b.path));
    let i1 = i + key_path().len();
    assert(parse_lit(s, i, key_path()) == Some(i1));
    assert(quoted(b.path) =~= seq!['"'] + esc_pat);
    lemma_starts_split(s, i1, seq!['"'], esc_pat);
    lemma_starts_index(s, i1, seq!['"'], 0);
    assert(s[i1] == '"');
    lemma_scan_escape(s, i1 + 1, b.path, Seq::<char>::empty());
    assert(Seq::<char>::empty() + b.path =~= b.path);
    let i2 = i + l2.len();
    assert(i1 + 1 + escape_str(b.path).len() + 1 == i2);
    let i3 = i + l3.len();
    assert(parse_lit(s, i2, key_timestamp()) == Some(i3));
    let i4 = i + l4.len();
    lemma_starts_index(s, i4, key_size(), 0);
    assert(!is_digit(s[i4]));
    lemma_scan_i64(s, i3, b.timestamp as i64);
    let i5 = i + l5.len();
    assert(parse_lit(s, i4, key_size()) == Some(i5));
    let i6 = i + l6.len();
    lemma_starts_index(s, i6, seq!['}'], 0);
    assert(s[i6] == '}');
    assert(!is_digit(s[i6]));
    lemma_scan_u64(s, i5, b.size_bytes);
    assert(scan_backup(s, i).unwrap().0 =~= b);
}

/// Scanning the written elements of a non-empty backup array, with the
/// closing bracket after them, recovers the elements exactly.
proof fn lemma_scan_backup_items(s: Seq<char>, i: int, bs: Seq<BackupView>, acc: Seq<BackupView>)
    requires
        bs.len() >= 1,
        forall|k: int| 0 <= k < bs.len() ==> backup_in_range(#[trigger] bs[k]),
        starts_with_at(s, i, backup_items_text(bs) + seq![']']),
    ensures
        scan_backup_items(s, i, acc) == Some::<(Seq<BackupView>, int)>(
            (acc + bs, i + backup_items_text(bs).len() + 1),
        ),
    decreases bs.len(),
{
    reveal_strlit(", ");
    let bt = backup_text(bs[0]);
    if bs.len() == 1 {
        assert(backup_items_text(bs) + seq![']'] =~= bt + seq![']']);
        lemma_starts_split(s, i, bt, seq![']']);
        lemma_scan_backup(s, i, bs[0]);
        let j = i + bt.len();
        lemma_starts_index(s, j, seq![']'], 0);
        assert(s[j] == ']');
        assert(acc.push(bs[0]) =~= acc + bs);
    } else {
        let rest = backup_items_text(bs.skip(1)) + seq![']'];
        assert(backup_items_text(bs) + seq![']'] =~= bt + (", "@ + rest));
        lemma_starts_split(s, i, bt, ", "@ + rest);
        lemma_scan_backup(s, i, bs[0]);
        let j = i + bt.len();
        lemma_starts_split(s, j, ", "@, rest);
        lemma_starts_index(s, j, ", "@, 0);
        lemma_starts_index(s, j, ", "@, 1);
        assert(s[j] == ',');
        assert(s[j + 1] == ' ');
        assert(forall|k: int|
            0 <= k < bs.skip(1).len() ==> backup_in_range(#[trigger] bs.skip(1)[k]));
        lemma_scan_backup_items(s, j + 2, bs.skip(1), acc.push(bs[0]));
        assert(acc.push(bs[0]) + bs.skip(1) =~= acc + bs);
        assert(backup_items_text(bs).len() == bt.len() + 2 + backup_items_text(
            bs.skip(1),
        ).len());
    }
}

/// Scanning a written backup array recovers it exactly.
proof fn lemma_scan_backup_array(s: Seq<char>, i: int, bs: Seq<BackupView>)
    requires
        forall|k: int| 0 <= k < bs.len() ==> backup_in_range(#[trigger] bs[k]),
        starts_with_at(s, i, backup_array_text(bs)),
    ensures
        scan_backup_array(s, i) == Some::<(Seq<BackupView>, int)>(
            (bs, i + backup_array_text(bs).len()),
        ),
{
    reveal_strlit("[]");
    reveal_strlit("[");
    reveal_strlit("]");
    reveal_strlit("{\"path\": ");
    if bs.len() == 0 {
        lemma_starts_index(s, i, "[]"@, 0);
        lemma_starts_index(s, i, "[]"@, 1);
        assert(s[i] == '[');
        assert(s[i + 1] == ']');
    } else {
        let body = backup_items_text(bs);
        assert("]"@ =~= seq![']']);
        assert(backup_array_text(bs) =~= "["@ + (body + seq![']']));
        lemma_starts_split(s, i, "["@, body + seq![']']);
        lemma_starts_index(s, i, "["@, 0);
        assert(s[i] == '[');
        lemma_scan_backup_items(s, i + 1, bs, Seq::<BackupView>::empty());
        assert(Seq::<BackupView>::empty() + bs =~= bs);
        lemma_starts_index(s, i + 1, body + seq![']'], 0);
        assert((body + seq![']'])[0] == body[0]);
        assert(body[0] == backup_text(bs[0])[0]);
        assert(backup_text(bs[0])[0] == key_path()[0]);
        assert(s[i + 1] == '{');
        assert(s[i + 1] != ']');
    }
}

// ---------------------------------------------------------------------
// The whole document.
// ---------------------------------------------------------------------

pub open spec fn key_packages() -> Seq<char> {
    "{\n  \"installed_packages\": "@
}

pub open spec fn key_configs() -> Seq<char> {
    ",\n  \"deployed_configs\": "@
}

pub open spec fn key_services() -> Seq<char> {
    ",\n  \"enabled_services\": "@
}

pub open spec fn key_update() -> Seq<char> {
    ",\n  \"last_update\": "@
}

pub open spec fn key_backups() -> Seq<char> {
    ",\n  \"backups\": "@
}

pub open spec fn key_close() -> Seq<char> {
    "\n}"@
}

/// The full text of a written record: one pretty-printed JSON object with
/// the five fields in a fixed order.
pub open spec fn json_of(v: StateView) -> Seq<char> {
    key_packages() + str_array_text(v.installed_packages) + key_configs() + bool_text(
        v.deployed_configs,
    ) + key_services() + str_array_text(v.enabled_services) + key_update() + int_repr(
        v.last_update,
    ) + key_backups() + backup_array_text(v.backups) + key_close()
}

/// Parses a whole document: the five fields in order, nothing before or
/// after; `None` on any malformed content.
pub open spec fn parse_state(s: Seq<char>) -> Option<StateView> {
    match parse_lit(s, 0, key_packages()) {
        Some(i1) => match scan_str_array(s, i1) {
            Some((pkgs, i2)) => match parse_lit(s, i2, key_configs()) {
                Some(i3) => match parse_bool(s, i3) {
                    Some((dc, i4)) => match parse_lit(s, i4, key_services()) {
                        Some(i5) => match scan_str_array(s, i5) {
                            Some((svcs, i6)) => match parse_lit(s, i6, key_update()) {
                                Some(i7) => match scan_i64(s, i7) {
                                    Some((lu, i8)) => match parse_lit(s, i8, key_backups()) {
                                        Some(i9) => match scan_backup_array(s, i9) {
                                            Some((bks, i10)) => match parse_lit(
                                                s,
                                                i10,
                                                key_close(),
                                            ) {
                                                Some(end) => if end == s.len() {
                                                    Some(
                                                        StateView {
                                                            installed_packages: pkgs,
                                                            deployed_configs: dc,
                                                            enabled_services: svcs,
                                                            last_update: lu as int,
                                                            backups: bks,
                                                        },
                                                    )
                                                } else {
                                                    None
                                                },
                                                None => None,
                                            },
                                            None => None,
                                        },
                                        None => None,
                                    },
                                    None => None,
                                },
                                None => None,
                            },
                            None => None,
                        },
                        None => None,
                    },
                    None => None,
                },
                None => None,
            },
            None => None,
        },
        None => None,
    }
}

/// The values a record in memory can take: timestamps within the stored
/// integer type. Every `InstallState`'s view satisfies this.
pub open spec fn state_in_range(v: StateView) -> bool {
    &&& i64::MIN <= v.last_update <= i64::MAX
    &&& forall|k: int| 0 <= k < v.backups.len() ==> backup_in_range(#[trigger] v.backups[k])
}

/// Reading back a written record yields the record itself: the writer's
/// text is always accepted by the reader, and nothing of the record is
/// lost or altered on the way to disk and back.
#[verifier::rlimit(80)]
pub proof fn lemma_parse_json_of(v: StateView)
    requires
        state_in_range(v),
    ensures
        parse_state(json_of(v)) == Some(v),
{
    reveal_strlit("{\n  \"installed_packages\": ");
    reveal_strlit(",\n  \"deployed_configs\": ");
    reveal_strlit(",\n  \"enabled_services\": ");
    reveal_strlit(",\n  \"last_update\": ");
    reveal_strlit(",\n  \"backups\": ");
    reveal_strlit("\n}");
    let s = json_of(v);
    let a2 = str_array_text(v.installed_packages);
    let a4 = bool_text(v.deployed_configs);
    let a6 = str_array_text(v.enabled_services);
    let a8 = int_repr(v.last_update);
    let a10 = backup_array_text(v.backups);
    let l10 = key_packages() + a2 + key_configs() + a4 + key_services() + a6 + key_update() + a8
        + key_backups() + a10;
    let l9 = key_packages() + a2 + key_configs() + a4 + key_services() + a6 + key_update() + a8
        + key_backups();
    let l8 = key_packages() + a2 + key_configs() + a4 + key_services() + a6 + key_update() + a8;
    let l7 = key_packages() + a2 + key_configs() + a4 + key_services() + a6 + key_update();
    let l6 = key_packages() + a2 + key_configs() + a4 + key_services() + a6;
    let l5 = key_packages() + a2 + key_configs() + a4 + key_services();
    let l4 = key_packages() + a2 + key_configs() + a4;
    let l3 = key_packages() + a2 + key_configs();
    let l2 = key_packages() + a2;
    assert(s.subrange(0, s.len() as int) =~= s);
    assert(starts_with_at(s, 0, s));
    lemma_starts_split(s, 0, l10, key_close());
    lemma_starts_split(s, 0, l9, a10);
    lemma_starts_split(s, 0, l8, key_backups());
    lemma_starts_split(s, 0, l7, a8);
    lemma_starts_split(s, 0, l6, key_update());
    lemma_starts_split(s, 0, l5, a6);
    lemma_starts_split(s, 0, l4, key_services());
    lemma_starts_split(s, 0, l3, a4);
    lemma_starts_split(s, 0, l2, key_configs());
    lemma_starts_split(s, 0, key_packages(), a2);
    let i1 = key_packages().len() as int;
    assert(parse_lit(s, 0, key_packages()) == Some(i1));
    lemma_scan_str_array(s, i1, v.installed_packages);
    let i2 = l2.len() as int;
    let i3 = l3.len() as int;
    assert(parse_lit(s, i2, key_configs()) == Some(i3));
    lemma_parse_bool(s, i3, v.deployed_configs);
    let i4 = l4.len() as int;
    let i5 = l5.len() as int;
    assert(parse_lit(s, i4, key_services()) == Some(i5));
    lemma_scan_str_array(s, i5, v.enabled_services);
    let i6 = l6.len() as int;
    let i7 = l7.len() as int;
    assert(parse_lit(s, i6, key_update()) == Some(i7));
    let i8 = l8.len() as int;
    lemma_starts_index(s, i8, key_backups(), 0);
    assert(!is_digit(s[i8]));
    lemma_scan_i64(s, i7, v.last_update as i64);
    let i9 = l9.len() as int;
    assert(parse_lit(s, i8, key_backups()) == Some(i9));
    lemma_scan_backup_array(s, i9, v.backups);
    let i10 = l10.len() as int;
    assert(parse_lit(s, i10, key_close()) == Some(i10 + key_close().len()));
    assert(i10 + key_close().len() == s.len());
    assert(parse_state(s).unwrap() =~= v);
}

// ---------------------------------------------------------------------
// The writer.
// ---------------------------------------------------------------------

/// Relies on String::push: appends exactly the given character.
#[verifier::external_body]
fn push_char(out: &mut String, c: char)
    ensures
        final(out)@ == old(out)@.push(c),
{
    out.push(c);
}

/// Appends the escaped form of `s` from character `idx` on.
fn write_escaped(out: &mut String, s: &str, idx: usize)
    requires
        idx <= s@.len(),
    ensures
        final(out)@ == old(out)@ + escape_str(s@.skip(idx as int)),
    decreases s@.len() - idx@,
{
    let len = s.unicode_len();
    if idx < len {
        let c = s.get_char(idx);
        if c == '"' || c == '\\' {
            push_char(out, '\\');
            push_char(out, c);
        } else {
            push_char(out, c);
        }
        proof {
            assert(s@.skip(idx as int)[0] == s@[idx as int]);
            assert(s@.skip(idx as int).skip(1) =~= s@.skip(idx as int + 1));
        }
        let ghost mid = out@;
        proof {
            assert(mid =~= old(out)@ + escape_char(s@[idx as int]));
        }
        write_escaped(out, s, idx + 1);
        proof {
            assert(out@ =~= old(out)@ + escape_str(s@.skip(idx as int)));
        }
    } else {
        proof {
            assert(s@.skip(idx as int) =~= Seq::<char>::empty());
            assert(out@ =~= old(out)@ + escape_str(s@.skip(idx as int)));
        }
    }
}

/// Appends a quoted string value.
fn write_quoted(out: &mut String, s: &str)
    ensures
        final(out)@ == old(out)@ + quoted(s@),
{
    push_char(out, '"');
    write_escaped(out, s, 0);
    push_char(out, '"');
    proof {
        assert(s@.skip(0) =~= s@);
        assert(out@ =~= old(out)@ + quoted(s@));
    }
}

/// The digit character for a value below ten.
fn digit_char_of(d: u64) -> (r: char)
    requires
        d < 10,
    ensures
        r == digit_char(d as int),
{
    if d == 0 {
        '0'
    } else if d == 1 {
        '1'
    } else if d == 2 {
        '2'
    } else if d == 3 {
        '3'
    } else if d == 4 {
        '4'
    } else if d == 5 {
        '5'
    } else if d == 6 {
        '6'
    } else if d == 7 {
        '7'
    } else if d == 8 {
        '8'
    } else {
        '9'
    }
}

/// Appends the decimal digits of `n`.
fn write_u64(out: &mut String, n: u64)
    ensures
        final(out)@ == old(out)@ + dec_digits(n as nat),
    decreases n,
{
    if n < 10 {
        push_char(out, digit_char_of(n));
        proof {
            assert(out@ =~= old(out)@ + dec_digits(n as nat));
        }
    } else {
        write_u64(out, n / 10);
        push_char(out, digit_char_of(n % 10));
        proof {
            assert(out@ =~= old(out)@ + dec_digits(n as nat));
        }
    }
}

/// Appends the text of a signed number.
fn write_i64(out: &mut String, n: i64)
    ensures
        final(out)@ == old(out)@ + int_repr(n as int),
{
    if n >= 0 {
        write_u64(out, n as u64);
    } else {
        push_char(out, '-');
        let mag: u64 = if n == i64::MIN {
            9223372036854775808u64
        } else {
            (-n) as u64
        };
        write_u64(out, mag);
        proof {
            assert(mag as nat == (-(n as int)) as nat);
            assert(out@ =~= old(out)@ + int_repr(n as int));
        }
    }
}

/// Appends the elements of a non-empty string array from `idx` on.
fn write_str_items(out: &mut String, v: &Vec<String>, idx: usize)
    requires
        idx < v@.len(),
    ensures
        final(out)@ == old(out)@ + str_items_text(v.deep_view().skip(idx as int)),
    decreases v@.len() - idx@,
{
    proof {
        assert(v.deep_view().skip(idx as int)[0] == v@[idx as int]@);
    }
    write_quoted(out, v[idx].as_str());
    let n = v.len();
    if idx + 1 < n {
        out.append(", ");
        write_str_items(out, v, idx + 1);
        proof {
            assert(v.deep_view().skip(idx as int).skip(1) =~= v.deep_view().skip(idx as int + 1));
            assert(out@ =~= old(out)@ + str_items_text(v.deep_view().skip(idx as int)));
        }
    } else {
        proof {
            assert(v.deep_view().skip(idx as int).len() == 1);
            assert(out@ =~= old(out)@ + str_items_text(v.deep_view().skip(idx as int)));
        }
    }
}

/// Appends a complete string array value.
fn write_str_array(out: &mut String, v: &Vec<String>)
    ensures
        final(out)@ == old(out)@ + str_array_text(v.deep_view()),
{
    if v.len() == 0 {
        out.append("[]");
    } else {
        out.append("[");
        write_str_items(out, v, 0);
        out.append("]");
        proof {
            assert(v.deep_view().skip(0) =~= v.deep_view());
            assert(out@ =~= old(out)@ + str_array_text(v.deep_view()));
        }
    }
}

/// Appends one backup object.
fn write_backup(out: &mut String, b: &BackupInfo)
    ensures
        final(out)@ == old(out)@ + backup_text(b@),
{
    out.append("{\"path\": ");
    write_quoted(out, b.path.as_str());
    out.append(", \"timestamp\": ");
    write_i64(out, b.timestamp);
    out.append(", \"size_bytes\": ");
    write_u64(out, b.size_bytes);
    push_char(out, '}');
    proof {
        assert(out@ =~= old(out)@ + backup_text(b@));
    }
}

/// Appends the elements of a non-empty backup array from `idx` on.
fn write_backup_items(out: &mut String, v: &Vec<BackupInfo>, idx: usize)
    requires
        idx < v@.len(),
    ensures
        final(out)@ == old(out)@ + backup_items_text(
            Seq::new(v@.len(), |k: int| v@[k]@).skip(idx as int),
        ),
    decreases v@.len() - idx@,
{
    let ghost bs = Seq::new(v@.len(), |k: int| v@[k]@);
    proof {
        assert(bs.skip(idx as int)[0] == v@[idx as int]@);
    }
    write_backup(out, &v[idx]);
    let n = v.len();
    if idx + 1 < n {
        out.append(", ");
        write_backup_items(out, v, idx + 1);
        proof {
            assert(bs.skip(idx as int).skip(1) =~= bs.skip(idx as int + 1));
            assert(out@ =~= old(out)@ + backup_items_text(bs.skip(idx as int)));
        }
    } else {
        proof {
            assert(bs.skip(idx as int).len() == 1);
            assert(out@ =~= old(out)@ + backup_items_text(bs.skip(idx as int)));
        }
    }
}

/// Appends a complete backup array value.
fn write_backup_array(out: &mut String, v: &Vec<BackupInfo>)
    ensures
        final(out)@ == old(out)@ + backup_array_text(Seq::new(v@.len(), |k: int| v@[k]@)),
{
    let ghost bs = Seq::new(v@.len(), |k: int| v@[k]@);
    if v.len() == 0 {
        out.append("[]");
    } else {
        out.append("[");
        write_backup_items(out, v, 0);
        out.append("]");
        proof {
            assert(bs.skip(0) =~= bs);
            assert(out@ =~= old(out)@ + backup_array_text(bs));
        }
    }
}

// ---------------------------------------------------------------------
// The reader.
// ---------------------------------------------------------------------

/// Consumes the literal text `lit` at position `i`.
fn eat_lit(s: &str, i: usize, lit: &str) -> (r: Option<usize>)
    ensures
        match r {
            Some(j) => parse_lit(s@, i as int, lit@) == Some(j as int),
            None => parse_lit(s@, i as int, lit@) is None,
        },
{
    let slen = s.unicode_len();
    let n = lit.unicode_len();
    if i > slen || n > slen - i {
        proof {
            assert(!starts_with_at(s@, i as int, lit@));
        }
        return None;
    }
    let mut k: usize = 0;
    while k < n
        invariant
            0 <= k <= n,
            i + n <= slen,
            slen == s@.len(),
            n == lit@.len(),
            forall|m: int| 0 <= m < k ==> s@[i + m] == lit@[m],
        decreases n - k,
    {
        let a = s.get_char(i + k);
        let b = lit.get_char(k);
        if a != b {
            proof {
                if starts_with_at(s@, i as int, lit@) {
                    lemma_starts_index(s@, i as int, lit@, k as int);
                }
            }
            return None;
        }
        k = k + 1;
    }
    proof {
        assert(s@.subrange(i as int, i + lit@.len()) =~= lit@);
    }
    Some(i + n)
}

/// Reads a quoted string body from `i` (just past the opening quote),
/// resolving escapes, through the closing quote.
fn parse_string_at(s: &str, i: usize, acc: String) -> (r: Option<(String, usize)>)
    ensures
        match r {
            Some(t) => scan_string(s@, i as int, acc@) == Some::<(Seq<char>, int)>(
                (t.0@, t.1 as int),
            ),
            None => scan_string(s@, i as int, acc@) is None,
        },
    decreases s@.len() - i@,
{
    let slen = s.unicode_len();
    if i >= slen {
        return None;
    }
    let c = s.get_char(i);
    if c == '"' {
        Some((acc, i + 1))
    } else if c == '\\' {
        if i + 1 < slen {
            let c2 = s.get_char(i + 1);
            if c2 == '"' || c2 == '\\' {
                let mut acc2 = acc;
                push_char(&mut acc2, c2);
                parse_string_at(s, i + 2, acc2)
            } else {
                None
            }
        } else {
            None
        }
    } else {
        let mut acc2 = acc;
        push_char(&mut acc2, c);
        parse_string_at(s, i + 1, acc2)
    }
}

proof fn lemma_scan_digits_lower(s: Seq<char>, i: int, acc: nat)
    ensures
        scan_digits(s, i, acc).0 >= acc,
    decreases s.len() - i,
{
    if 0 <= i < s.len() && is_digit(s[i]) {
        lemma_scan_digits_lower(s, i + 1, acc * 10 + digit_val(s[i]) as nat);
    }
}

/// Reads a run of digits from `i` as an unsigned number.
fn parse_u64_at(s: &str, i: usize) -> (r: Option<(u64, usize)>)
    ensures
        match r {
            Some(t) => scan_u64(s@, i as int) == Some::<(u64, int)>((t.0, t.1 as int)),
            None => scan_u64(s@, i as int) is None,
        },
{
    let slen = s.unicode_len();
    if i >= slen {
        return None;
    }
    let c0 = s.get_char(i);
    let c0v = c0 as u32;
    if !(48 <= c0v && c0v <= 57) {
        return None;
    }
    let mut acc: u64 = 0;
    let mut j: usize = i;
    let mut done = false;
    while !done && j < slen
        invariant
            i <= j <= slen,
            slen == s@.len(),
            is_digit(s@[i as int]),
            scan_digits(s@, i as int, 0) == scan_digits(s@, j as int, acc as nat),
            done ==> j < slen && !is_digit(s@[j as int]),
        decreases slen - j + (if done {
            0int
        } else {
            1int
        }),
    {
        let c = s.get_char(j);
        let cv = c as u32;
        if 48 <= cv && cv <= 57 {
            let d = (cv - 48) as u64;
            if acc > (u64::MAX - d) / 10 {
                proof {
                    vstd::arithmetic::div_mod::lemma_fundamental_div_mod(
                        (u64::MAX - d) as int,
                        10,
                    );
                    assert(acc * 10 + d > u64::MAX);
                    lemma_scan_digits_lower(s@, j + 1, (acc * 10 + d) as nat);
                    assert(scan_digits(s@, j as int, acc as nat) == scan_digits(
                        s@,
                        j + 1,
                        (acc * 10 + d) as nat,
                    ));
                    assert(scan_digits(s@, i as int, 0).0 > u64::MAX);
                }
                return None;
            }
            proof {
                vstd::arithmetic::div_mod::lemma_fundamental_div_mod((u64::MAX - d) as int, 10);
                assert(acc * 10 + d <= u64::MAX);
                assert(scan_digits(s@, j as int, acc as nat) == scan_digits(
                    s@,
                    j + 1,
                    (acc * 10 + d) as nat,
                ));
            }
            acc = acc * 10 + d;
            j = j + 1;
        } else {
            done = true;
        }
    }
    proof {
        assert(scan_digits(s@, j as int, acc as nat) == (acc as nat, j as int));
    }
    Some((acc, j))
}

/// Reads an optionally signed run of digits from `i` as a signed number.
fn parse_i64_at(s: &str, i: usize) -> (r: Option<(i64, usize)>)
    ensures
        match r {
            Some(t) => scan_i64(s@, i as int) == Some::<(i64, int)>((t.0, t.1 as int)),
            None => scan_i64(s@, i as int) is None,
        },
{
    let slen = s.unicode_len();
    if i >= slen {
        return None;
    }
    let c0 = s.get_char(i);
    if c0 == '-' {
        if i + 1 >= slen {
            return None;
        }
        let c1 = s.get_char(i + 1);
        let c1v = c1 as u32;
        if !(48 <= c1v && c1v <= 57) {
            return None;
        }
        match parse_u64_at(s, i + 1) {
            Some((n, j)) => {
                if n <= 9223372036854775808u64 {
                    let v: i64 = if n == 9223372036854775808u64 {
                        i64::MIN
                    } else {
                        -(n as i64)
                    };
                    Some((v, j))
                } else {
                    None
                }
            },
            None => {
                proof {
                    lemma_scan_digits_lower(s@, i as int + 1, 0);
                }
                None
            },
        }
    } else {
        let c0v = c0 as u32;
        if !(48 <= c0v && c0v <= 57) {
            return None;
        }
        match parse_u64_at(s, i) {
            Some((n, j)) => {
                if n <= i64::MAX as u64 {
                    Some((n as i64, j))
                } else {
                    None
                }
            },
            None => None,
        }
    }
}

/// Reads a boolean keyword at `i`.
fn parse_bool_at(s: &str, i: usize) -> (r: Option<(bool, usize)>)
    ensures
        match r {
            Some(t) => parse_bool(s@, i as int) == Some::<(bool, int)>((t.0, t.1 as int)),
            None => parse_bool(s@, i as int) is None,
        },
{
    match eat_lit(s, i, "true") {
        Some(j) => Some((true, j)),
        None => match eat_lit(s, i, "false") {
            Some(j) => Some((false, j)),
            None => None,
        },
    }
}

/// Reads the elements of a non-empty string array from `i` (just past the
/// opening bracket) through the closing bracket.
fn parse_str_items_at(s: &str, i: usize, acc: Vec<String>) -> (r: Option<(Vec<String>, usize)>)
    ensures
        match r {
            Some(t) => scan_str_items(s@, i as int, acc.deep_view()) == Some::<
                (Seq<Seq<char>>, int),
            >((t.0.deep_view(), t.1 as int)),
            None => scan_str_items(s@, i as int, acc.deep_view()) is None,
        },
    decreases s@.len() - i@,
{
    let slen = s.unicode_len();
    if i < slen {
        let c = s.get_char(i);
        if c == '"' {
            match parse_string_at(s, i + 1, String::new()) {
                Some((t, j)) => {
                    proof {
                        lemma_scan_string_bounds(s@, i as int + 1, Seq::<char>::empty());
                    }
                    if j < slen {
                        let cj = s.get_char(j);
                        if cj == ']' {
                            let mut acc2 = acc;
                            acc2.push(t);
                            proof {
                                assert(acc2.deep_view() =~= acc.deep_view().push(
                                    acc2@[acc2@.len() - 1]@,
                                ));
                            }
                            Some((acc2, j + 1))
                        } else if cj == ',' && j + 1 < slen && s.get_char(j + 1) == ' ' {
                            let mut acc2 = acc;
                            acc2.push(t);
                            proof {
                                assert(acc2.deep_view() =~= acc.deep_view().push(
                                    acc2@[acc2@.len() - 1]@,
                                ));
                            }
                            parse_str_items_at(s, j + 2, acc2)
                        } else {
                            None
                        }
                    } else {
                        None
                    }
                },
                None => None,
            }
        } else {
            None
        }
    } else {
        None
    }
}

/// Reads a complete string array value at `i`.
fn parse_str_array_at(s: &str, i: usize) -> (r: Option<(Vec<String>, usize)>)
    ensures
        match r {
            Some(t) => scan_str_array(s@, i as int) == Some::<(Seq<Seq<char>>, int)>(
                (t.0.deep_view(), t.1 as int),
            ),
            None => scan_str_array(s@, i as int) is None,
        },
{
    let slen = s.unicode_len();
    if i < slen && s.get_char(i) == '[' {
        if i + 1 < slen && s.get_char(i + 1) == ']' {
            let empty: Vec<String> = Vec::new();
            proof {
                assert(empty.deep_view() =~= Seq::<Seq<char>>::empty());
            }
            Some((empty, i + 2))
        } else {
            let empty: Vec<String> = Vec::new();
            proof {
                assert(empty.deep_view() =~= Seq::<Seq<char>>::empty());
            }
            parse_str_items_at(s, i + 1, empty)
        }
    } else {
        None
    }
}

/// The mathematical contents of a vector of backups.
pub open spec fn backups_view(v: Seq<BackupInfo>) -> Seq<BackupView> {
    Seq::new(v.len(), |k: int| v[k]@)
}

/// Reads one backup object at `i`.
fn parse_backup_at(s: &str, i: usize) -> (r: Option<(BackupInfo, usize)>)
    ensures
        match r {
            Some(t) => scan_backup(s@, i as int) == Some::<(BackupView, int)>(
                (t.0@, t.1 as int),
            ),
            None => scan_backup(s@, i as int) is None,
        },
{
    let slen = s.unicode_len();
    match eat_lit(s, i, "{\"path\": ") {
        Some(i1) => {
            if i1 < slen && s.get_char(i1) == '"' {
                match parse_string_at(s, i1 + 1, String::new()) {
                    Some((p, i2)) => match eat_lit(s, i2, ", \"timestamp\": ") {
                        Some(i3) => match parse_i64_at(s, i3) {
                            Some((t, i4)) => match eat_lit(s, i4, ", \"size_bytes\": ") {
                                Some(i5) => match parse_u64_at(s, i5) {
                                    Some((z, i6)) => {
                                        if i6 < slen && s.get_char(i6) == '}' {
                                            let b = BackupInfo {
                                                path: p,
                                                timestamp: t,
                                                size_bytes: z,
                                            };
                                            proof {
                                                assert(b@ =~= scan_backup(
                                                    s@,
                                                    i as int,
                                                ).unwrap().0);
                                            }
                                            Some((b, i6 + 1))
                                        } else {
                                            None
                                        }
                                    },
                                    None => None,
                                },
                                None => None,
                            },
                            None => None,
                        },
                        None => None,
                    },
                    None => None,
                }
            } else {
                None
            }
        },
        None => None,
    }
}

proof fn lemma_backups_view_push(v: Seq<BackupInfo>, b: BackupInfo)
    ensures
        backups_view(v.push(b)) == backups_view(v).push(b@),
{
    assert(backups_view(v.push(b)) =~= backups_view(v).push(b@));
}

/// Reads the elements of a non-empty backup array from `i` (just past the
/// opening bracket) through the closing bracket.
fn parse_backup_items_at(s: &str, i: usize, acc: Vec<BackupInfo>) -> (r: Option<
    (Vec<BackupInfo>, usize),
>)
    ensures
        match r {
            Some(t) => scan_backup_items(s@, i as int, backups_view(acc@)) == Some::<
                (Seq<BackupView>, int),
            >((backups_view(t.0@), t.1 as int)),
            None => scan_backup_items(s@, i as int, backups_view(acc@)) is None,
        },
    decreases s@.len() - i@,
{
    let slen = s.unicode_len();
    match parse_backup_at(s, i) {
        Some((b, j)) => {
            proof {
                lemma_scan_backup_bounds(s@, i as int);
            }
            if j < slen {
                let cj = s.get_char(j);
                if cj == ']' {
                    let ghost bv = b@;
                    let mut acc2 = acc;
                    acc2.push(b);
                    proof {
                        lemma_backups_view_push(acc@, acc2@[acc2@.len() - 1]);
                        assert(acc2@ == acc@.push(acc2@[acc2@.len() - 1]));
                        assert(backups_view(acc2@) =~= backups_view(acc@).push(bv));
                    }
                    Some((acc2, j + 1))
                } else if cj == ',' && j + 1 < slen && s.get_char(j + 1) == ' ' {
                    let ghost bv = b@;
                    let mut acc2 = acc;
                    acc2.push(b);
                    proof {
                        assert(backups_view(acc2@) =~= backups_view(acc@).push(bv));
                    }
                    parse_backup_items_at(s, j + 2, acc2)
                } else {
                    None
                }
            } else {
                None
            }
        },
        None => None,
    }
}

/// Reads a complete backup array value at `i`.
fn parse_backup_array_at(s: &str, i: usize) -> (r: Option<(Vec<BackupInfo>, usize)>)
    ensures
        match r {
            Some(t) => scan_backup_array(s@, i as int) == Some::<(Seq<BackupView>, int)>(
                (backups_view(t.0@), t.1 as int),
            ),
            None => scan_backup_array(s@, i as int) is None,
        },
{
    let slen = s.unicode_len();
    if i < slen && s.get_char(i) == '[' {
        if i + 1 < slen && s.get_char(i + 1) == ']' {
            let empty: Vec<BackupInfo> = Vec::new();
            proof {
                assert(backups_view(empty@) =~= Seq::<BackupView>::empty());
            }
            Some((empty, i + 2))
        } else {
            let empty: Vec<BackupInfo> = Vec::new();
            proof {
                assert(backups_view(empty@) =~= Seq::<BackupView>::empty());
            }
            parse_backup_items_at(s, i + 1, empty)
        }
    } else {
        None
    }
}

/// Reads a whole document; `None` exactly where `parse_state` refuses it.
fn parse_install_state(s: &str) -> (r: Option<InstallState>)
    ensures
        match r {
            Some(st) => parse_state(s@) == Some(st@),
            None => parse_state(s@) is None,
        },
{
    let slen = s.unicode_len();
    match eat_lit(s, 0, "{\n  \"installed_packages\": ") {
        Some(i1) => match parse_str_array_at(s, i1) {
            Some((pkgs, i2)) => match eat_lit(s, i2, ",\n  \"deployed_configs\": ") {
                Some(i3) => match parse_bool_at(s, i3) {
                    Some((dc, i4)) => match eat_lit(s, i4, ",\n  \"enabled_services\": ") {
                        Some(i5) => match parse_str_array_at(s, i5) {
                            Some((svcs, i6)) => match eat_lit(s, i6, ",\n  \"last_update\": ") {
                                Some(i7) => match parse_i64_at(s, i7) {
                                    Some((lu, i8)) => match eat_lit(s, i8, ",\n  \"backups\": ") {
                                        Some(i9) => match parse_backup_array_at(s, i9) {
                                            Some((bks, i10)) => match eat_lit(s, i10, "\n}") {
                                                Some(end) => {
                                                    if end == slen {
                                                        let st = InstallState {
                                                            installed_packages: pkgs,
                                                            deployed_configs: dc,
                                                            enabled_services: svcs,
                                                            last_update: lu,
                                                            backups: bks,
                                                        };
                                                        proof {
                                                            assert(st@ =~= parse_state(
                                                                s@,
                                                            ).unwrap());
                                                        }
                                                        Some(st)
                                                    } else {
                                                        None
                                                    }
                                                },
                                                None => None,
                                            },
                                            None => None,
                                        },
                                        None => None,
                                    },
                                    None => None,
                                },
                                None => None,
                            },
                            None => None,
                        },
                        None => None,
                    },
                    None => None,
                },
                None => None,
            },
            None => None,
        },
        None => None,
    }
}

impl InstallState {
    /// The full document for this record: exactly the text `json_of`
    /// describes.
    pub fn to_json(&self) -> (r: String)
        ensures
            r@ == json_of(self@),
    {
        let mut out = String::new();
        out.append("{\n  \"installed_packages\": ");
        write_str_array(&mut out, &self.installed_packages);
        out.append(",\n  \"deployed_configs\": ");
        if self.deployed_configs {
            out.append("true");
        } else {
            out.append("false");
        }
        out.append(",\n  \"enabled_services\": ");
        write_str_array(&mut out, &self.enabled_services);
        out.append(",\n  \"last_update\": ");
        write_i64(&mut out, self.last_update);
        out.append(",\n  \"backups\": ");
        write_backup_array(&mut out, &self.backups);
        out.append("\n}");
        proof {
            assert(out@ =~= json_of(self@));
        }
        out
    }

    /// The record a document holds: `Ok` exactly when `parse_state`
    /// accepts the text, `CorruptState` otherwise.
    pub fn from_json(content: &str) -> (r: Result<InstallState, crate::state::StateError>)
        ensures
            match r {
                Ok(st) => parse_state(content@) == Some(st@),
                Err(e) => e == crate::state::StateError::CorruptState && parse_state(
                    content@,
                ) is None,
            },
    {
        match parse_install_state(content) {
            Some(st) => Ok(st),
            None => Err(crate::state::StateError::CorruptState),
        }
    }

    /// Loading a session's record: an absent file yields a fresh default
    /// record stamped with the current time; present content is parsed,
    /// `CorruptState` exactly on malformed content.
    pub fn load_from(content: Option<&str>) -> (r: Result<
        InstallState,
        crate::state::StateError,
    >)
        ensures
            match content {
                None => r matches Ok(st) && st@ == crate::state::spec_default_state(
                    st@.last_update,
                ),
                Some(c) => match r {
                    Ok(st) => parse_state(c@) == Some(st@),
                    Err(e) => e == crate::state::StateError::CorruptState && parse_state(
                        c@,
                    ) is None,
                },
            },
    {
        match content {
            None => {
                let t = crate::state::now_timestamp();
                Ok(InstallState::default_at(t))
            },
            Some(c) => InstallState::from_json(c),
        }
    }
}

/// Every record held in memory satisfies the range side condition of the
/// round trip: its timestamps are stored integers.
pub proof fn lemma_state_in_range(st: InstallState)
    ensures
        state_in_range(st@),
{
    assert forall|k: int| 0 <= k < st@.backups.len() implies backup_in_range(
        #[trigger] st@.backups[k],
    ) by {
        assert(st@.backups[k] == st.backups@[k]@);
    }
}

/// The save/load round trip: the document written for any record parses
/// back to exactly that record.
pub proof fn lemma_round_trip(st: InstallState)
    ensures
        parse_state(json_of(st@)) == Some(st@),
{
    lemma_state_in_range(st);
    lemma_parse_json_of(st@);
}

} // verus!
