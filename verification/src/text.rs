//! Text handling: whitespace trimming, key-marker removal and decimal parsing.

use vstd::prelude::*;

verus! {

/// The `White_Space` property of the Unicode Character Database, which is
/// what `char::is_whitespace` tests.
pub open spec fn is_whitespace_spec(c: char) -> bool {
    ||| ('\u{9}' <= c && c <= '\u{d}')
    ||| c == ' '
    ||| c == '\u{85}'
    ||| c == '\u{a0}'
    ||| c == '\u{1680}'
    ||| ('\u{2000}' <= c && c <= '\u{200a}')
    ||| c == '\u{2028}'
    ||| c == '\u{2029}'
    ||| c == '\u{202f}'
    ||| c == '\u{205f}'
    ||| c == '\u{3000}'
}

/// `s` with its leading whitespace removed.
pub open spec fn trim_start_spec(s: Seq<char>) -> Seq<char>
    decreases s.len(),
{
    if s.len() > 0 && is_whitespace_spec(s[0]) {
        trim_start_spec(s.drop_first())
    } else {
        s
    }
}

/// `s` with its trailing whitespace removed.
pub open spec fn trim_end_spec(s: Seq<char>) -> Seq<char>
    decreases s.len(),
{
    if s.len() > 0 && is_whitespace_spec(s.last()) {
        trim_end_spec(s.drop_last())
    } else {
        s
    }
}

/// `s` with whitespace removed at both ends, as `str::trim` does.
pub open spec fn trim_spec(s: Seq<char>) -> Seq<char> {
    trim_end_spec(trim_start_spec(s))
}

/// Whether `c` is a whitespace character.
pub fn is_whitespace(c: char) -> (b: bool)
    ensures
        b == is_whitespace_spec(c),
{
    ('\u{9}' <= c && c <= '\u{d}') || c == ' ' || c == '\u{85}' || c == '\u{a0}' || c
        == '\u{1680}' || ('\u{2000}' <= c && c <= '\u{200a}') || c == '\u{2028}' || c
        == '\u{2029}' || c == '\u{202f}' || c == '\u{205f}' || c == '\u{3000}'
}

/// Skipping a run of leading whitespace does not change what the start-trim gives.
proof fn lemma_trim_start_skip(s: Seq<char>, i: int)
    requires
        0 <= i <= s.len(),
        forall|k: int| 0 <= k < i ==> is_whitespace_spec(#[trigger] s[k]),
    ensures
        trim_start_spec(s) == trim_start_spec(s.subrange(i, s.len() as int)),
    decreases i,
{
    if i > 0 {
        let t = s.drop_first();
        assert forall|k: int| 0 <= k < i - 1 implies is_whitespace_spec(#[trigger] t[k]) by {
            assert(t[k] == s[k + 1]);
        }
        lemma_trim_start_skip(t, i - 1);
        assert(t.subrange(i - 1, t.len() as int) =~= s.subrange(i, s.len() as int));
    } else {
        assert(s.subrange(0, s.len() as int) =~= s);
    }
}

/// Dropping a run of trailing whitespace does not change what the end-trim gives.
proof fn lemma_trim_end_skip(s: Seq<char>, j: int)
    requires
        0 <= j <= s.len(),
        forall|k: int| j <= k < s.len() ==> is_whitespace_spec(#[trigger] s[k]),
    ensures
        trim_end_spec(s) == trim_end_spec(s.subrange(0, j)),
    decreases s.len() - j,
{
    if j < s.len() {
        let t = s.drop_last();
        assert forall|k: int| j <= k < t.len() implies is_whitespace_spec(#[trigger] t[k]) by {
            assert(t[k] == s[k]);
        }
        lemma_trim_end_skip(t, j);
        assert(t.subrange(0, j) =~= s.subrange(0, j));
    } else {
        assert(s.subrange(0, j) =~= s);
    }
}

/// `s` without leading and trailing whitespace, as a new `String`.
pub fn trim_whitespace(s: &str) -> (res: String)
    ensures
        res@ == trim_spec(s@),
{
    let n = s.unicode_len();
    let mut start: usize = 0;
    while start < n && is_whitespace(s.get_char(start))
        invariant
            n == s@.len(),
            start <= n,
            forall|k: int| 0 <= k < start ==> is_whitespace_spec(#[trigger] s@[k]),
        decreases n - start,
    {
        start = start + 1;
    }
    let mut end: usize = n;
    while end > start && is_whitespace(s.get_char(end - 1))
        invariant
            n == s@.len(),
            start <= end <= n,
            forall|k: int| end <= k < n ==> is_whitespace_spec(#[trigger] s@[k]),
        decreases end,
    {
        end = end - 1;
    }
    proof {
        lemma_trim_start_skip(s@, start as int);
        let rest = s@.subrange(start as int, n as int);
        assert(start == n || !is_whitespace_spec(rest[0]));
        assert(trim_start_spec(rest) == rest);
        assert forall|k: int| end - start <= k < rest.len() implies is_whitespace_spec(
            #[trigger] rest[k],
        ) by {
            assert(rest[k] == s@[k + start]);
        }
        lemma_trim_end_skip(rest, end - start);
        let core = rest.subrange(0, end - start);
        assert(core =~= s@.subrange(start as int, end as int));
        assert(core.len() == 0 || !is_whitespace_spec(core.last()));
        assert(trim_end_spec(core) == core);
    }
    s.substring_char(start, end).to_owned()
}

/// The text of a wallet-file key entry, with surrounding whitespace removed.
pub fn clean_address(address: &str) -> (res: String)
    ensures
        res@ == trim_spec(address@),
{
    trim_whitespace(address)
}

/// The marker that the wallet file puts in front of an ed25519 public key.
pub open spec fn key_marker_spec() -> Seq<char> {
    "ED25519_PK_PREFIX"@
}

/// `s` with every occurrence of `pat` removed, matching from left to right
/// without overlap, as `str::replace(pat, "")` does for a non-empty `pat`.
pub open spec fn remove_all_spec(s: Seq<char>, pat: Seq<char>) -> Seq<char>
    decreases s.len(),
{
    if s.len() == 0 {
        s
    } else if 0 < pat.len() <= s.len() && s.subrange(0, pat.len() as int) == pat {
        remove_all_spec(s.subrange(pat.len() as int, s.len() as int), pat)
    } else {
        seq![s[0]] + remove_all_spec(s.drop_first(), pat)
    }
}

/// Whether `pat` occurs in `s` at position `i`.
fn occurs_at(s: &str, n: usize, i: usize, pat: &str, m: usize) -> (b: bool)
    requires
        n == s@.len(),
        m == pat@.len(),
        i <= n,
    ensures
        b == (m <= n - i && s@.subrange(i as int, i + m) == pat@),
{
    if m > n - i {
        return false;
    }
    let mut j: usize = 0;
    while j < m
        invariant
            n == s@.len(),
            m == pat@.len(),
            i + m <= n,
            j <= m,
            forall|k: int| 0 <= k < j ==> s@[i + k] == pat@[k],
        decreases m - j,
    {
        if s.get_char(i + j) != pat.get_char(j) {
            assert(s@.subrange(i as int, i + m)[j as int] != pat@[j as int]);
            return false;
        }
        j = j + 1;
    }
    assert(s@.subrange(i as int, i + m) =~= pat@);
    true
}

/// A public key from the wallet file with every `ED25519_PK_PREFIX` marker removed.
pub fn strip_key_marker(key: &str) -> (res: String)
    ensures
        res@ == remove_all_spec(key@, key_marker_spec()),
{
    let marker = "ED25519_PK_PREFIX";
    proof {
        reveal_strlit("ED25519_PK_PREFIX");
    }
    let m = marker.unicode_len();
    let n = key.unicode_len();
    let mut res = String::new();
    let mut i: usize = 0;
    assert(key@.subrange(0, n as int) =~= key@);
    while i < n
        invariant
            n == key@.len(),
            m == marker@.len(),
            marker@ == key_marker_spec(),
            0 < m,
            i <= n,
            remove_all_spec(key@, key_marker_spec()) == res@ + remove_all_spec(
                key@.subrange(i as int, n as int),
                key_marker_spec(),
            ),
        decreases n - i,
    {
        let ghost rest = key@.subrange(i as int, n as int);
        if occurs_at(key, n, i, marker, m) {
            assert(rest.subrange(0, m as int) =~= key@.subrange(i as int, i + m));
            assert(rest.subrange(m as int, rest.len() as int) =~= key@.subrange(
                i + m,
                n as int,
            ));
            i = i + m;
        } else {
            assert(rest.subrange(0, m as int) =~= key@.subrange(i as int, i + m) || m > n - i);
            let ghost before = res@;
            res.append(key.substring_char(i, i + 1));
            assert(rest.drop_first() =~= key@.subrange(i + 1, n as int));
            assert(key@.subrange(i as int, i + 1) =~= seq![rest[0]]);
            assert(before + (seq![rest[0]] + remove_all_spec(rest.drop_first(), key_marker_spec()))
                =~= res@ + remove_all_spec(rest.drop_first(), key_marker_spec()));
            i = i + 1;
        }
    }
    assert(key@.subrange(n as int, n as int) =~= Seq::<char>::empty());
    assert(res@ + Seq::<char>::empty() =~= res@);
    res
}

/// Whether `c` is an ASCII decimal digit.
pub open spec fn is_digit_spec(c: char) -> bool {
    '0' <= c && c <= '9'
}

/// The value of the decimal digit `c`.
pub open spec fn digit_value(c: char) -> nat {
    (c as int - '0' as int) as nat
}

/// The number that the decimal digits `ds` write, most significant first.
pub open spec fn decimal_value(ds: Seq<char>) -> nat
    decreases ds.len(),
{
    if ds.len() == 0 {
        0
    } else {
        decimal_value(ds.drop_last()) * 10 + digit_value(ds.last())
    }
}

/// Whether every character of `ds` is a decimal digit.
pub open spec fn all_digits(ds: Seq<char>) -> bool {
    forall|i: int| 0 <= i < ds.len() ==> is_digit_spec(#[trigger] ds[i])
}

/// The digit part of an unsigned number: one leading `+` is allowed before
/// at least one more character.
pub open spec fn unsigned_digits(s: Seq<char>) -> Seq<char> {
    if s.len() > 1 && s[0] == '+' {
        s.drop_first()
    } else {
        s
    }
}

/// What `usize::from_str` gives for `s`: the number, or `None` where `s` is
/// empty, holds a non-digit, or writes a number above `usize::MAX`.
pub open spec fn parse_usize_spec(s: Seq<char>) -> Option<usize> {
    let ds = unsigned_digits(s);
    if ds.len() > 0 && all_digits(ds) && decimal_value(ds) <= usize::MAX {
        Some(decimal_value(ds) as usize)
    } else {
        None
    }
}

/// A longer run of digits never writes a smaller number than its prefix.
proof fn lemma_decimal_value_prefix(ds: Seq<char>, k: int)
    requires
        0 <= k <= ds.len(),
    ensures
        decimal_value(ds.subrange(0, k)) <= decimal_value(ds),
    decreases ds.len(),
{
    if k < ds.len() {
        lemma_decimal_value_prefix(ds.drop_last(), k);
        assert(ds.drop_last().subrange(0, k) =~= ds.subrange(0, k));
    } else {
        assert(ds.subrange(0, k) =~= ds);
    }
}

/// Parses a decimal number as `usize::from_str` does.
pub fn parse_usize(s: &str) -> (res: Option<usize>)
    ensures
        res == parse_usize_spec(s@),
{
    let n = s.unicode_len();
    let mut i: usize = 0;
    if n > 1 && s.get_char(0) == '+' {
        i = 1;
    }
    let ghost start = i as int;
    let ghost ds = unsigned_digits(s@);
    assert(ds =~= s@.subrange(start, n as int));
    if i == n {
        return None;
    }
    let mut acc: usize = 0;
    assert(ds.subrange(0, 0) =~= Seq::<char>::empty());
    while i < n
        invariant
            n == s@.len(),
            0 <= start <= i <= n,
            ds == s@.subrange(start, n as int),
            ds == unsigned_digits(s@),
            ds.len() > 0,
            all_digits(ds.subrange(0, i - start)),
            acc == decimal_value(ds.subrange(0, i - start)),
        decreases n - i,
    {
        let c = s.get_char(i);
        assert(ds[i - start] == s@[i as int]);
        if !('0' <= c && c <= '9') {
            assert(!is_digit_spec(ds[i - start]));
            return None;
        }
        let d = (c as u32 - '0' as u32) as usize;
        let ghost next = ds.subrange(0, i - start + 1);
        assert(next.drop_last() =~= ds.subrange(0, i - start));
        assert(decimal_value(next) == acc * 10 + d);
        match acc.checked_mul(10) {
            None => {
                proof {
                    lemma_decimal_value_prefix(ds, i - start + 1);
                }
                return None;
            },
            Some(x) => match x.checked_add(d) {
                None => {
                    proof {
                        lemma_decimal_value_prefix(ds, i - start + 1);
                    }
                    return None;
                },
                Some(y) => {
                    acc = y;
                },
            },
        }
        assert forall|k: int| 0 <= k < next.len() implies is_digit_spec(#[trigger] next[k]) by {
            if k < next.len() - 1 {
                assert(next[k] == ds.subrange(0, i - start)[k]);
            }
        }
        i = i + 1;
    }
    assert(ds.subrange(0, n - start) =~= ds);
    Some(acc)
}

/// The menu choice that a typed line stands for: the trimmed line read as a
/// number, or 0 where it is not one.
pub open spec fn menu_choice_spec(line: Seq<char>) -> usize {
    match parse_usize_spec(trim_spec(line)) {
        Some(n) => n,
        None => 0,
    }
}

/// The menu choice typed on a line: the trimmed line read as a number, or 0
/// where it is not one.
pub fn parse_menu_choice(line: &str) -> (choice: usize)
    ensures
        choice == menu_choice_spec(line@),
{
    let trimmed = trim_whitespace(line);
    match parse_usize(trimmed.as_str()) {
        Some(n) => n,
        None => 0,
    }
}

/// Whether every character of `w` is whitespace.
pub open spec fn all_whitespace(w: Seq<char>) -> bool {
    forall|i: int| 0 <= i < w.len() ==> is_whitespace_spec(#[trigger] w[i])
}

proof fn lemma_trim_start_append(s: Seq<char>, w: Seq<char>)
    ensures
        trim_start_spec(s + w) == if trim_start_spec(s).len() > 0 {
            trim_start_spec(s) + w
        } else {
            trim_start_spec(w)
        },
    decreases s.len(),
{
    if s.len() == 0 {
        assert(s + w =~= w);
    } else if is_whitespace_spec(s[0]) {
        assert((s + w)[0] == s[0]);
        assert((s + w).drop_first() =~= s.drop_first() + w);
        lemma_trim_start_append(s.drop_first(), w);
    } else {
        assert((s + w)[0] == s[0]);
    }
}

proof fn lemma_trim_start_of_whitespace(w: Seq<char>)
    requires
        all_whitespace(w),
    ensures
        trim_start_spec(w).len() == 0,
{
    lemma_trim_start_skip(w, w.len() as int);
    assert(w.subrange(w.len() as int, w.len() as int) =~= Seq::<char>::empty());
}

proof fn lemma_trim_start_shape(s: Seq<char>)
    ensures
        trim_start_spec(s).len() == 0 || !is_whitespace_spec(trim_start_spec(s)[0]),
    decreases s.len(),
{
    if s.len() > 0 && is_whitespace_spec(s[0]) {
        lemma_trim_start_shape(s.drop_first());
    }
}

proof fn lemma_trim_end_shape(s: Seq<char>)
    ensures
        trim_end_spec(s).len() <= s.len(),
        trim_end_spec(s) == s.subrange(0, trim_end_spec(s).len() as int),
        trim_end_spec(s).len() == 0 || !is_whitespace_spec(trim_end_spec(s).last()),
    decreases s.len(),
{
    if s.len() > 0 && is_whitespace_spec(s.last()) {
        lemma_trim_end_shape(s.drop_last());
        assert(s.drop_last().subrange(0, trim_end_spec(s).len() as int) =~= s.subrange(
            0,
            trim_end_spec(s).len() as int,
        ));
    } else {
        assert(s.subrange(0, s.len() as int) =~= s);
    }
}

/// Trimming is idempotent: a cleaned key or input line is left as it is by a
/// second cleaning.
pub proof fn lemma_trim_idempotent(s: Seq<char>)
    ensures
        trim_spec(trim_spec(s)) == trim_spec(s),
{
    let t = trim_start_spec(s);
    let u = trim_end_spec(t);
    lemma_trim_start_shape(s);
    lemma_trim_end_shape(t);
    if u.len() > 0 {
        assert(u[0] == t[0]);
    }
    assert(trim_start_spec(u) == u);
    assert(trim_end_spec(u) == u);
}

/// Whitespace around a text never changes what trimming gives, so it never
/// changes a cleaned key or the menu choice that a typed line stands for.
pub proof fn lemma_trim_ignores_surrounding_whitespace(w1: Seq<char>, s: Seq<char>, w2: Seq<char>)
    requires
        all_whitespace(w1),
        all_whitespace(w2),
    ensures
        trim_spec(w1 + s + w2) == trim_spec(s),
        menu_choice_spec(w1 + s + w2) == menu_choice_spec(s),
{
    let x = s + w2;
    assert(w1 + s + w2 =~= w1 + x);
    lemma_trim_start_skip(w1 + x, w1.len() as int);
    assert((w1 + x).subrange(w1.len() as int, (w1 + x).len() as int) =~= x);
    lemma_trim_start_append(s, w2);
    let t = trim_start_spec(s);
    if t.len() > 0 {
        lemma_trim_end_skip(t + w2, t.len() as int);
        assert((t + w2).subrange(0, t.len() as int) =~= t);
    } else {
        lemma_trim_start_of_whitespace(w2);
    }
}

/// Whether `pat` occurs in `s` starting at position `i`.
pub open spec fn occurs_at_spec(s: Seq<char>, pat: Seq<char>, i: int) -> bool {
    0 <= i && i + pat.len() <= s.len() && s.subrange(i, i + pat.len()) == pat
}

/// A marker in front of a key is removed: the key stripped of a leading
/// marker is the key stripped on its own.
pub proof fn lemma_leading_marker_removed(key: Seq<char>)
    ensures
        remove_all_spec(key_marker_spec() + key, key_marker_spec()) == remove_all_spec(
            key,
            key_marker_spec(),
        ),
{
    reveal_strlit("ED25519_PK_PREFIX");
    let p = key_marker_spec();
    let s = p + key;
    assert(s.subrange(0, p.len() as int) =~= p);
    assert(s.subrange(p.len() as int, s.len() as int) =~= key);
}

/// A text in which `pat` does not occur is left unchanged when `pat` is removed.
pub proof fn lemma_remove_absent(s: Seq<char>, pat: Seq<char>)
    requires
        pat.len() > 0,
        forall|i: int| !occurs_at_spec(s, pat, i),
    ensures
        remove_all_spec(s, pat) == s,
    decreases s.len(),
{
    if s.len() > 0 {
        assert(!occurs_at_spec(s, pat, 0));
        let t = s.drop_first();
        assert forall|i: int| !occurs_at_spec(t, pat, i) by {
            if occurs_at_spec(t, pat, i) {
                assert(s.subrange(i + 1, i + 1 + pat.len()) =~= t.subrange(i, i + pat.len()));
                assert(occurs_at_spec(s, pat, i + 1));
            }
        }
        lemma_remove_absent(t, pat);
        assert(seq![s[0]] + t =~= s);
    }
}

/// The character that writes the decimal digit `d`.
pub open spec fn digit_char(d: nat) -> char {
    if d == 0 {
        '0'
    } else if d == 1 {
        '1'
    } else if d == 2 {
        '2'
    } else if d == 3 {
        '3'
    } else if d == 4 {
        '4'
    } else if d == 5 {
        '5'
    } else if d == 6 {
        '6'
    } else if d == 7 {
        '7'
    } else if d == 8 {
        '8'
    } else {
        '9'
    }
}

/// The usual decimal writing of `n`: no sign, no leading zeros.
pub open spec fn decimal_text(n: nat) -> Seq<char>
    decreases n,
{
    if n < 10 {
        seq![digit_char(n)]
    } else {
        decimal_text(n / 10).push(digit_char(n % 10))
    }
}

proof fn lemma_decimal_text_digits(n: nat)
    ensures
        decimal_text(n).len() > 0,
        all_digits(decimal_text(n)),
        decimal_value(decimal_text(n)) == n,
    decreases n,
{
    if n < 10 {
        let t = decimal_text(n);
        assert(t.drop_last() =~= Seq::<char>::empty());
        assert(digit_value(digit_char(n)) == n);
        assert(is_digit_spec(t[0]));
        assert(decimal_value(Seq::<char>::empty()) == 0);
        assert(t.last() == digit_char(n));
        assert(decimal_value(t) == decimal_value(t.drop_last()) * 10 + digit_value(t.last()));
    } else {
        lemma_decimal_text_digits(n / 10);
        let t = decimal_text(n);
        let d = (n % 10) as nat;
        assert(t.drop_last() =~= decimal_text(n / 10));
        assert(digit_value(digit_char(d)) == d);
        assert((n / 10) * 10 + d == n);
        assert(t.last() == digit_char(d));
        assert(decimal_value(t) == decimal_value(t.drop_last()) * 10 + digit_value(t.last()));
        assert forall|i: int| 0 <= i < t.len() implies is_digit_spec(#[trigger] t[i]) by {
            if i < t.len() - 1 {
                assert(t[i] == decimal_text(n / 10)[i]);
            }
        }
    }
}

/// Reading a number back: the decimal writing of every `usize` value parses
/// to that value, and typed as a line it selects that menu choice, however
/// much whitespace surrounds it.
pub proof fn lemma_decimal_text_round_trip(n: usize, w1: Seq<char>, w2: Seq<char>)
    requires
        all_whitespace(w1),
        all_whitespace(w2),
    ensures
        parse_usize_spec(decimal_text(n as nat)) == Some(n),
        menu_choice_spec(w1 + decimal_text(n as nat) + w2) == n,
{
    let t = decimal_text(n as nat);
    lemma_decimal_text_digits(n as nat);
    assert(is_digit_spec(t[0]));
    assert(unsigned_digits(t) == t);
    assert(!is_whitespace_spec(t[0]));
    assert(!is_whitespace_spec(t.last()));
    assert(trim_start_spec(t) == t);
    assert(trim_end_spec(t) == t);
    lemma_trim_ignores_surrounding_whitespace(w1, t, w2);
}

/// A typed line whose trimmed text reads as a number selects exactly that
/// number; any other line selects 0, which is no menu entry.
pub proof fn lemma_menu_choice_is_the_typed_number(line: Seq<char>)
    ensures
        parse_usize_spec(trim_spec(line)) matches Some(n) ==> menu_choice_spec(line) == n,
        parse_usize_spec(trim_spec(line)) is None ==> menu_choice_spec(line) == 0,
{
}

/// A text holding a character that is neither a digit nor a single leading
/// `+` is no number.
pub proof fn lemma_non_digit_is_no_number(s: Seq<char>, i: int)
    requires
        0 <= i < s.len(),
        !is_digit_spec(s[i]),
        !(i == 0 && s[0] == '+' && s.len() > 1),
    ensures
        parse_usize_spec(s) is None,
{
    let ds = unsigned_digits(s);
    if s.len() > 1 && s[0] == '+' {
        assert(ds[i - 1] == s[i]);
    } else {
        assert(ds[i] == s[i]);
    }
}

/// What trimming gives: the part of the text between a whitespace-only
/// prefix and a whitespace-only suffix, which itself neither starts nor ends
/// with whitespace.
pub proof fn lemma_trim_shape(s: Seq<char>)
    ensures
        exists|i: int, j: int|
            #![trigger s.subrange(i, j)]
            0 <= i <= j <= s.len() && trim_spec(s) == s.subrange(i, j) && all_whitespace(
                s.subrange(0, i),
            ) && all_whitespace(s.subrange(j, s.len() as int)),
        trim_spec(s).len() > 0 ==> !is_whitespace_spec(trim_spec(s)[0]) && !is_whitespace_spec(
            trim_spec(s).last(),
        ),
{
    let (i, t) = lemma_trim_start_split(s);
    lemma_trim_start_shape(s);
    lemma_trim_end_shape(t);
    let u = trim_end_spec(t);
    let j = i + u.len();
    lemma_trim_end_suffix(t);
    assert(u =~= s.subrange(i, j));
    assert(s.subrange(j, s.len() as int) =~= t.subrange(u.len() as int, t.len() as int));
    if u.len() > 0 {
        assert(u[0] == t[0]);
    }
}

proof fn lemma_trim_start_split(s: Seq<char>) -> (r: (int, Seq<char>))
    ensures
        0 <= r.0 <= s.len(),
        r.1 == trim_start_spec(s),
        r.1 == s.subrange(r.0, s.len() as int),
        all_whitespace(s.subrange(0, r.0)),
    decreases s.len(),
{
    if s.len() > 0 && is_whitespace_spec(s[0]) {
        let (i, t) = lemma_trim_start_split(s.drop_first());
        assert(s.drop_first().subrange(i, s.len() - 1) =~= s.subrange(i + 1, s.len() as int));
        assert forall|k: int| 0 <= k < i + 1 implies is_whitespace_spec(
            #[trigger] s.subrange(0, i + 1)[k],
        ) by {
            if k > 0 {
                assert(s.subrange(0, i + 1)[k] == s.drop_first().subrange(0, i)[k - 1]);
            }
        }
        (i + 1, t)
    } else {
        assert(s.subrange(0, s.len() as int) =~= s);
        (0, s)
    }
}

proof fn lemma_trim_end_suffix(t: Seq<char>)
    ensures
        all_whitespace(t.subrange(trim_end_spec(t).len() as int, t.len() as int)),
    decreases t.len(),
{
    lemma_trim_end_shape(t);
    if t.len() > 0 && is_whitespace_spec(t.last()) {
        let d = t.drop_last();
        lemma_trim_end_suffix(d);
        lemma_trim_end_shape(d);
        let l = trim_end_spec(t).len() as int;
        assert forall|k: int| 0 <= k < t.len() - l implies is_whitespace_spec(
            #[trigger] t.subrange(l, t.len() as int)[k],
        ) by {
            if k < d.len() - l {
                assert(t.subrange(l, t.len() as int)[k] == d.subrange(l, d.len() as int)[k]);
            }
        }
    } else {
        assert(t.subrange(t.len() as int, t.len() as int) =~= Seq::<char>::empty());
    }
}

} // verus!
