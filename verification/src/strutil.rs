//! Character-level string helpers shared by the parsing and path modules.
//!
//! Every helper is specified against `Seq<char>` views, so that the modules
//! built on top of them can state their contracts directly over the text
//! they receive.

use vstd::prelude::*;

verus! {

/// ASCII whitespace as the process-listing parsers understand it.
pub open spec fn is_space(c: char) -> bool {
    c == ' ' || c == '\t' || c == '\r' || c == '\n'
}

/// A decimal digit.
pub open spec fn is_digit(c: char) -> bool {
    '0' <= c && c <= '9'
}

/// Numeric value of a decimal digit.
pub open spec fn digit_val(c: char) -> int {
    c as int - '0' as int
}

/// ASCII lower-casing of a single character; everything else is unchanged.
pub open spec fn fold_char(c: char) -> char {
    if 'A' <= c && c <= 'Z' {
        ((c as u8) + 32) as char
    } else {
        c
    }
}

/// ASCII lower-casing of a whole sequence.
pub open spec fn fold(s: Seq<char>) -> Seq<char> {
    s.map_values(|c: char| fold_char(c))
}

/// Executable counterpart of `fold_char`.
pub fn lower_char(c: char) -> (r: char)
    ensures
        r == fold_char(c),
{
    if 'A' <= c && c <= 'Z' {
        ((c as u8) + 32) as char
    } else {
        c
    }
}

/// Case-insensitive equality over the ASCII range.
pub fn eq_ignore_case(a: &str, b: &str) -> (r: bool)
    ensures
        r == (fold(a@) == fold(b@)),
{
    let a_len = a.unicode_len();
    let b_len = b.unicode_len();
    if a_len != b_len {
        assert(fold(a@).len() != fold(b@).len());
        return false;
    }
    let mut i: usize = 0;
    while i < a_len
        invariant
            a_len == a@.len(),
            b_len == b@.len(),
            a_len == b_len,
            i <= a_len,
            forall|j: int| 0 <= j < i ==> fold_char(a@[j]) == fold_char(b@[j]),
        decreases a_len - i,
    {
        let ca = a.get_char(i);
        let cb = b.get_char(i);
        if lower_char(ca) != lower_char(cb) {
            assert(fold(a@)[i as int] != fold(b@)[i as int]);
            return false;
        }
        i = i + 1;
    }
    assert(fold(a@) =~= fold(b@));
    true
}

/// `p` is a prefix of `s`.
pub open spec fn has_prefix(s: Seq<char>, p: Seq<char>) -> bool {
    p.len() <= s.len() && s.subrange(0, p.len() as int) == p
}

/// `p` occurs somewhere inside `s`.
pub open spec fn has_substring(s: Seq<char>, p: Seq<char>) -> bool {
    exists|i: int| 0 <= i <= s.len() - p.len() && #[trigger] s.subrange(i, i + p.len() as int) == p
}

/// Executable prefix test.
pub fn str_starts_with(s: &str, p: &str) -> (r: bool)
    ensures
        r == has_prefix(s@, p@),
{
    let s_len = s.unicode_len();
    let p_len = p.unicode_len();
    if p_len > s_len {
        return false;
    }
    let mut i: usize = 0;
    while i < p_len
        invariant
            s_len == s@.len(),
            p_len == p@.len(),
            p_len <= s_len,
            i <= p_len,
            forall|j: int| 0 <= j < i ==> s@[j] == p@[j],
        decreases p_len - i,
    {
        if s.get_char(i) != p.get_char(i) {
            assert(s@.subrange(0, p@.len() as int)[i as int] != p@[i as int]);
            return false;
        }
        i = i + 1;
    }
    assert(s@.subrange(0, p@.len() as int) =~= p@);
    true
}

/// Case-insensitive prefix test over the ASCII range.
pub fn str_starts_with_ignore_case(s: &str, p: &str) -> (r: bool)
    ensures
        r == has_prefix(fold(s@), fold(p@)),
{
    let s_len = s.unicode_len();
    let p_len = p.unicode_len();
    if p_len > s_len {
        return false;
    }
    let mut i: usize = 0;
    while i < p_len
        invariant
            s_len == s@.len(),
            p_len == p@.len(),
            p_len <= s_len,
            i <= p_len,
            forall|j: int| 0 <= j < i ==> fold_char(s@[j]) == fold_char(p@[j]),
        decreases p_len - i,
    {
        if lower_char(s.get_char(i)) != lower_char(p.get_char(i)) {
            assert(fold(s@).subrange(0, p@.len() as int)[i as int] != fold(p@)[i as int]);
            return false;
        }
        i = i + 1;
    }
    assert(fold(s@).subrange(0, fold(p@).len() as int) =~= fold(p@));
    true
}

/// Executable substring search.
pub fn str_contains(s: &str, p: &str) -> (r: bool)
    ensures
        r == has_substring(s@, p@),
{
    let s_len = s.unicode_len();
    let p_len = p.unicode_len();
    if p_len > s_len {
        return false;
    }
    if p_len == 0 {
        assert(has_substring(s@, p@)) by {
            assert(s@.subrange(0, 0 + p@.len() as int) =~= p@);
        }
        return true;
    }
    let mut start: usize = 0;
    while start <= s_len - p_len
        invariant
            s_len == s@.len(),
            p_len == p@.len(),
            p_len <= s_len,
            1 <= p_len,
            start <= s_len - p_len + 1,
            forall|i: int| 0 <= i < start ==> #[trigger] s@.subrange(i, i + p@.len() as int) != p@,
        decreases s_len - p_len - start + 1,
    {
        let mut i: usize = 0;
        let mut here = true;
        while i < p_len
            invariant
                s_len == s@.len(),
                p_len == p@.len(),
                start + p_len <= s_len,
                i <= p_len,
                here ==> forall|j: int| 0 <= j < i ==> s@[start + j] == p@[j],
                !here ==> s@.subrange(start as int, start + p@.len() as int) != p@,
            decreases p_len - i,
        {
            if s.get_char(start + i) != p.get_char(i) {
                assert(s@.subrange(start as int, start + p@.len() as int)[i as int] != p@[i as int]);
                here = false;
                i = p_len;
            } else {
                i = i + 1;
            }
        }
        if here {
            assert(s@.subrange(start as int, start + p@.len() as int) =~= p@);
            return true;
        }
        assert(s@.subrange(start as int, start + p@.len() as int) != p@);
        start = start + 1;
    }
    false
}

/// Case-insensitive substring search over the ASCII range.
pub fn contains_ignore_case(s: &str, p: &str) -> (r: bool)
    ensures
        r == has_substring(fold(s@), fold(p@)),
{
    let s_len = s.unicode_len();
    let p_len = p.unicode_len();
    if p_len > s_len {
        assert(fold(s@).len() < fold(p@).len());
        return false;
    }
    if p_len == 0 {
        assert(has_substring(fold(s@), fold(p@))) by {
            assert(fold(s@).subrange(0, 0 + fold(p@).len() as int) =~= fold(p@));
        }
        return true;
    }
    let mut start: usize = 0;
    while start <= s_len - p_len
        invariant
            s_len == s@.len(),
            p_len == p@.len(),
            1 <= p_len <= s_len,
            start <= s_len - p_len + 1,
            forall|i: int|
                0 <= i < start ==> #[trigger] fold(s@).subrange(i, i + fold(p@).len() as int)
                    != fold(p@),
        decreases s_len - p_len - start + 1,
    {
        let mut i: usize = 0;
        let mut here = true;
        while i < p_len
            invariant
                s_len == s@.len(),
                p_len == p@.len(),
                start + p_len <= s_len,
                i <= p_len,
                here ==> forall|j: int|
                    0 <= j < i ==> fold_char(s@[start + j])
                        == fold_char(p@[j]),
                !here ==> fold(s@).subrange(start as int, start + fold(p@).len() as int) != fold(
                    p@,
                ),
            decreases p_len - i,
        {
            if lower_char(s.get_char(start + i)) != lower_char(
                p.get_char(i),
            ) {
                assert(fold(s@).subrange(start as int, start + fold(p@).len() as int)[i as int]
                    != fold(p@)[i as int]);
                here = false;
                i = p_len;
            } else {
                i = i + 1;
            }
        }
        if here {
            assert(fold(s@).subrange(start as int, start + fold(p@).len() as int) =~= fold(p@));
            return true;
        }
        start = start + 1;
    }
    false
}

/// Index of the first non-space character, scanning from the front.
pub open spec fn leading_spaces(s: Seq<char>) -> int
    decreases s.len(),
{
    if s.len() > 0 && is_space(s[0]) {
        1 + leading_spaces(s.skip(1))
    } else {
        0
    }
}

/// Index one past the last non-space character, scanning from the back.
pub open spec fn trailing_start(s: Seq<char>) -> int
    decreases s.len(),
{
    if s.len() > 0 && is_space(s.last()) {
        trailing_start(s.drop_last())
    } else {
        s.len() as int
    }
}

/// What `str::trim` leaves: the text with surrounding whitespace removed.
pub open spec fn trimmed(s: Seq<char>) -> Seq<char> {
    if leading_spaces(s) <= trailing_start(s) {
        s.subrange(leading_spaces(s), trailing_start(s))
    } else {
        Seq::empty()
    }
}

proof fn lemma_trailing_start_bound(s: Seq<char>)
    ensures
        0 <= trailing_start(s) <= s.len(),
        forall|j: int| trailing_start(s) <= j < s.len() ==> is_space(s[j]),
        trailing_start(s) > 0 ==> !is_space(s[trailing_start(s) - 1]),
    decreases s.len(),
{
    if s.len() > 0 && is_space(s.last()) {
        lemma_trailing_start_bound(s.drop_last());
        assert forall|j: int| trailing_start(s) <= j < s.len() implies is_space(s[j]) by {
            if j < s.len() - 1 {
                assert(is_space(s.drop_last()[j]));
            }
        }
    }
}

/// Leading spaces stop at the first non-space, so the count is determined
/// by any witness index with that shape.
proof fn lemma_leading_spaces_is(s: Seq<char>, k: int)
    requires
        0 <= k <= s.len(),
        forall|j: int| 0 <= j < k ==> is_space(s[j]),
        k < s.len() ==> !is_space(s[k]),
    ensures
        leading_spaces(s) == k,
    decreases s.len(),
{
    if s.len() > 0 && is_space(s[0]) {
        assert(k > 0);
        lemma_leading_spaces_is(s.skip(1), k - 1);
    }
}

proof fn lemma_trailing_start_is(s: Seq<char>, k: int)
    requires
        0 <= k <= s.len(),
        forall|j: int| k <= j < s.len() ==> is_space(s[j]),
        k > 0 ==> !is_space(s[k - 1]),
    ensures
        trailing_start(s) == k,
    decreases s.len(),
{
    if s.len() > 0 && is_space(s.last()) {
        assert(k < s.len());
        lemma_trailing_start_is(s.drop_last(), k);
    }
}

/// Executable counterpart of `trimmed`.
pub fn str_trim<'a>(s: &'a str) -> (r: &'a str)
    ensures
        r@ == trimmed(s@),
{
    let len = s.unicode_len();
    let mut lo: usize = 0;
    while lo < len && is_space_char(s.get_char(lo))
        invariant
            len == s@.len(),
            lo <= len,
            forall|j: int| 0 <= j < lo ==> is_space(s@[j]),
        decreases len - lo,
    {
        lo = lo + 1;
    }
    if lo == len {
        proof {
            lemma_leading_spaces_is(s@, len as int);
            lemma_trailing_start_bound(s@);
            assert(trimmed(s@) =~= s@.subrange(len as int, len as int));
        }
        let r = s.substring_char(len, len);
        return r;
    }
    let mut hi: usize = len;
    while hi > lo && is_space_char(s.get_char(hi - 1))
        invariant
            len == s@.len(),
            lo < len,
            lo <= hi <= len,
            forall|j: int| 0 <= j < lo ==> is_space(s@[j]),
            !is_space(s@[lo as int]),
            forall|j: int| hi <= j < len ==> is_space(s@[j]),
        decreases hi,
    {
        hi = hi - 1;
    }
    proof {
        lemma_leading_spaces_is(s@, lo as int);
        lemma_trailing_start_is(s@, hi as int);
    }
    s.substring_char(lo, hi)
}

/// Executable counterpart of `is_space`.
pub fn is_space_char(c: char) -> (r: bool)
    ensures
        r == is_space(c),
{
    c == ' ' || c == '\t' || c == '\r' || c == '\n'
}

/// Every character is a decimal digit.
pub open spec fn all_digits(s: Seq<char>) -> bool {
    forall|i: int| 0 <= i < s.len() ==> is_digit(#[trigger] s[i])
}

/// Value of a digit string, most significant digit first.
pub open spec fn digits_val(s: Seq<char>) -> int
    decreases s.len(),
{
    if s.len() == 0 {
        0
    } else {
        digits_val(s.drop_last()) * 10 + digit_val(s.last())
    }
}

/// What `str::parse::<u32>` accepts: an optional leading `+`, then at least
/// one digit, and a value that fits in the type.
pub open spec fn spec_parse_u32(s: Seq<char>) -> Option<u32> {
    let t = if s.len() > 0 && s[0] == '+' {
        s.skip(1)
    } else {
        s
    };
    if t.len() > 0 && all_digits(t) && digits_val(t) <= u32::MAX {
        Some(digits_val(t) as u32)
    } else {
        None
    }
}

proof fn lemma_digits_val_nonneg(s: Seq<char>)
    requires
        all_digits(s),
    ensures
        digits_val(s) >= 0,
    decreases s.len(),
{
    if s.len() > 0 {
        assert(all_digits(s.drop_last())) by {
            assert(forall|i: int| 0 <= i < s.len() - 1 ==> is_digit(#[trigger] s.drop_last()[i]));
        }
        lemma_digits_val_nonneg(s.drop_last());
    }
}

/// A digit string is worth at least any of its prefixes.
proof fn lemma_digits_val_mono(s: Seq<char>, k: int)
    requires
        all_digits(s),
        0 <= k <= s.len(),
    ensures
        digits_val(s) >= digits_val(s.subrange(0, k)),
    decreases s.len(),
{
    if k == s.len() {
        assert(s.subrange(0, k) =~= s);
    } else {
        assert(all_digits(s.drop_last())) by {
            assert(forall|i: int| 0 <= i < s.len() - 1 ==> is_digit(#[trigger] s.drop_last()[i]));
        }
        lemma_digits_val_mono(s.drop_last(), k);
        lemma_digits_val_nonneg(s.drop_last());
        assert(s.drop_last().subrange(0, k) =~= s.subrange(0, k));
    }
}

/// Executable counterpart of `spec_parse_u32`.
pub fn parse_u32(s: &str) -> (r: Option<u32>)
    ensures
        r == spec_parse_u32(s@),
{
    let len = s.unicode_len();
    let start: usize = if len > 0 && s.get_char(0) == '+' {
        1
    } else {
        0
    };
    let ghost t: Seq<char> = if start == 1 {
        s@.skip(1)
    } else {
        s@
    };
    if start == len {
        return None;
    }
    let mut i: usize = start;
    let mut acc: u64 = 0;
    while i < len
        invariant
            len == s@.len(),
            start <= 1,
            start <= i <= len,
            (start == 1) == (s@.len() > 0 && s@[0] == '+'),
            t == (if start == 1 { s@.skip(1) } else { s@ }),
            t.len() == len - start,
            forall|j: int| 0 <= j < t.len() ==> t[j] == s@[j + start],
            forall|j: int| 0 <= j < i - start ==> is_digit(#[trigger] t[j]),
            acc <= u32::MAX,
            acc as int == digits_val(t.subrange(0, i - start)),
        decreases len - i,
    {
        let c = s.get_char(i);
        if !('0' <= c && c <= '9') {
            assert(!is_digit(t[i - start]));
            return None;
        }
        let d: u64 = (c as u64) - ('0' as u64);
        let next: u64 = acc * 10 + d;
        proof {
            assert(t.subrange(0, i - start + 1).drop_last() =~= t.subrange(0, i - start));
            assert(t.subrange(0, i - start + 1).last() == t[i - start]);
        }
        if next > u32::MAX as u64 {
            proof {
                if t.len() > 0 && all_digits(t) {
                    lemma_digits_val_mono(t, i - start + 1);
                }
            }
            return None;
        }
        acc = next;
        i = i + 1;
    }
    proof {
        assert(t.subrange(0, i - start) =~= t);
    }
    Some(acc as u32)
}

/// The digit character for a value below ten.
pub open spec fn digit_char(d: int) -> char {
    ((('0' as u8) + d) as u8) as char
}

/// Decimal representation of `n`, without sign or padding.
pub open spec fn spec_decimal(n: int) -> Seq<char>
    decreases n,
{
    if n < 10 {
        seq![digit_char(if n >= 0 { n } else { 0 })]
    } else {
        spec_decimal(n / 10) + seq![digit_char(n % 10)]
    }
}

fn digit_str(d: u32) -> (r: &'static str)
    requires
        d < 10,
    ensures
        r@ =~= seq![digit_char(d as int)],
{
    let r = match d {
        0 => "0",
        1 => "1",
        2 => "2",
        3 => "3",
        4 => "4",
        5 => "5",
        6 => "6",
        7 => "7",
        8 => "8",
        _ => "9",
    };
    proof {
        reveal_strlit("0");
        reveal_strlit("1");
        reveal_strlit("2");
        reveal_strlit("3");
        reveal_strlit("4");
        reveal_strlit("5");
        reveal_strlit("6");
        reveal_strlit("7");
        reveal_strlit("8");
        reveal_strlit("9");
    }
    r
}

fn push_decimal(n: u32, out: &mut String)
    ensures
        final(out)@ == old(out)@ + spec_decimal(n as int),
    decreases n,
{
    if n < 10 {
        out.append(digit_str(n));
    } else {
        push_decimal(n / 10, out);
        out.append(digit_str(n % 10));
    }
}

/// What `str::split` yields for a one-character separator: the fields in
/// order, with an empty field between adjacent separators and at either end.
pub open spec fn split_on(s: Seq<char>, sep: char) -> Seq<Seq<char>>
    decreases s.len(),
{
    if s.len() == 0 {
        seq![Seq::<char>::empty()]
    } else {
        let rest = split_on(s.skip(1), sep);
        if s[0] == sep {
            seq![Seq::<char>::empty()] + rest
        } else {
            seq![seq![s[0]] + rest[0]] + rest.skip(1)
        }
    }
}

pub proof fn lemma_split_len(s: Seq<char>, sep: char)
    ensures
        split_on(s, sep).len() >= 1,
    decreases s.len(),
{
    if s.len() > 0 {
        lemma_split_len(s.skip(1), sep);
    }
}

/// Splitting peels off everything up to the first separator as one field.
proof fn lemma_split_first(s: Seq<char>, sep: char, k: int)
    requires
        0 <= k <= s.len(),
        forall|j: int| 0 <= j < k ==> s[j] != sep,
        k < s.len() ==> s[k] == sep,
    ensures
        k == s.len() ==> split_on(s, sep) == seq![s],
        k < s.len() ==> split_on(s, sep) == seq![s.subrange(0, k)] + split_on(
            s.skip(k + 1),
            sep,
        ),
    decreases k,
{
    if k == 0 {
        if s.len() == 0 {
            assert(seq![Seq::<char>::empty()] =~~= seq![s]);
        } else {
            assert(s.subrange(0, 0) =~= Seq::<char>::empty());
            assert(s.skip(1) =~= s.skip(0int + 1));
            assert(seq![Seq::<char>::empty()] + split_on(s.skip(1), sep) =~= seq![
                s.subrange(0, 0),
            ] + split_on(s.skip(0int + 1), sep));
            assert(split_on(s, sep) =~~= seq![s.subrange(0, 0)] + split_on(s.skip(0int + 1), sep));
        }
    } else {
        let tail = s.skip(1);
        assert(forall|j: int| 0 <= j < k - 1 ==> #[trigger] tail[j] != sep);
        lemma_split_first(tail, sep, k - 1);
        let rest = split_on(tail, sep);
        if k == s.len() {
            assert(rest == seq![tail]);
            assert(seq![s[0]] + rest[0] =~= s);
            assert(seq![seq![s[0]] + rest[0]] + rest.skip(1) =~~= seq![s]);
        } else {
            assert(rest == seq![tail.subrange(0, k - 1)] + split_on(tail.skip(k), sep));
            assert(seq![s[0]] + rest[0] =~= s.subrange(0, k));
            assert(tail.skip(k) =~= s.skip(k + 1));
            assert(rest.skip(1) =~~= split_on(s.skip(k + 1), sep));
            assert(seq![seq![s[0]] + rest[0]] + rest.skip(1) =~~= seq![s.subrange(0, k)]
                + split_on(s.skip(k + 1), sep));
        }
    }
}

/// First position of `sep` at or after `from`, or the length if absent.
pub fn find_char_from(s: &str, from: usize, sep: char) -> (k: usize)
    requires
        from <= s@.len(),
    ensures
        from <= k <= s@.len(),
        forall|j: int| from <= j < k ==> s@[j] != sep,
        k < s@.len() ==> s@[k as int] == sep,
{
    let len = s.unicode_len();
    let mut k = from;
    while k < len && s.get_char(k) != sep
        invariant
            len == s@.len(),
            from <= k <= len,
            forall|j: int| from <= j < k ==> s@[j] != sep,
        decreases len - k,
    {
        k = k + 1;
    }
    k
}

/// Executable counterpart of `split_on`.
pub fn split_str(s: &str, sep: char) -> (r: Vec<String>)
    ensures
        r.deep_view() == split_on(s@, sep),
        r.len() >= 1,
{
    let len = s.unicode_len();
    let mut out: Vec<String> = Vec::new();
    let mut pos: usize = 0;
    proof {
        assert(s@.skip(0) =~= s@);
        assert(out.deep_view() =~= Seq::<Seq<char>>::empty());
        assert(out.deep_view() + split_on(s@.skip(0), sep) =~~= split_on(s@, sep));
    }
    loop
        invariant_except_break
            len == s@.len(),
            pos <= len,
            split_on(s@, sep) == out.deep_view() + split_on(s@.skip(pos as int), sep),
        ensures
            out.deep_view() == split_on(s@, sep),
            out.len() >= 1,
        decreases len - pos,
    {
        let k = find_char_from(s, pos, sep);
        let field = s.substring_char(pos, k).to_owned();
        proof {
            let sub = s@.skip(pos as int);
            assert(forall|j: int| 0 <= j < k - pos ==> #[trigger] sub[j] != sep);
            lemma_split_first(sub, sep, k - pos);
            assert(sub.subrange(0, k - pos) =~= s@.subrange(pos as int, k as int));
            lemma_split_len(sub, sep);
        }
        let ghost old_out = out.deep_view();
        out.push(field);
        proof {
            assert(out.deep_view() =~~= old_out + seq![field@]);
        }
        if k == len {
            proof {
                assert(s@.skip(pos as int) =~= s@.subrange(pos as int, k as int));
                assert(out.deep_view() =~~= split_on(s@, sep));
                lemma_split_len(s@, sep);
            }
            break;
        }
        proof {
            assert(s@.skip(pos as int).skip(k - pos + 1) =~= s@.skip(k + 1));
            assert(out.deep_view() + split_on(s@.skip(k + 1), sep) =~~= split_on(s@, sep));
        }
        pos = k + 1;
    }
    out
}

/// Count of leading `"` characters.
pub open spec fn leading_quotes(s: Seq<char>) -> int
    decreases s.len(),
{
    if s.len() > 0 && s[0] == '"' {
        1 + leading_quotes(s.skip(1))
    } else {
        0
    }
}

/// Index one past the last non-`"` character.
pub open spec fn quote_end(s: Seq<char>) -> int
    decreases s.len(),
{
    if s.len() > 0 && s.last() == '"' {
        quote_end(s.drop_last())
    } else {
        s.len() as int
    }
}

/// What `str::trim_matches('"')` leaves.
pub open spec fn unquoted(s: Seq<char>) -> Seq<char> {
    if leading_quotes(s) <= quote_end(s) {
        s.subrange(leading_quotes(s), quote_end(s))
    } else {
        Seq::empty()
    }
}

proof fn lemma_leading_quotes_is(s: Seq<char>, k: int)
    requires
        0 <= k <= s.len(),
        forall|j: int| 0 <= j < k ==> s[j] == '"',
        k < s.len() ==> s[k] != '"',
    ensures
        leading_quotes(s) == k,
    decreases s.len(),
{
    if s.len() > 0 && s[0] == '"' {
        assert(k > 0);
        lemma_leading_quotes_is(s.skip(1), k - 1);
    }
}

proof fn lemma_quote_end_is(s: Seq<char>, k: int)
    requires
        0 <= k <= s.len(),
        forall|j: int| k <= j < s.len() ==> s[j] == '"',
        k > 0 ==> s[k - 1] != '"',
    ensures
        quote_end(s) == k,
    decreases s.len(),
{
    if s.len() > 0 && s.last() == '"' {
        assert(k < s.len());
        lemma_quote_end_is(s.drop_last(), k);
    }
}

proof fn lemma_quote_end_bound(s: Seq<char>)
    ensures
        0 <= quote_end(s) <= s.len(),
    decreases s.len(),
{
    if s.len() > 0 && s.last() == '"' {
        lemma_quote_end_bound(s.drop_last());
    }
}

/// Executable counterpart of `unquoted`.
pub fn str_trim_quotes<'a>(s: &'a str) -> (r: &'a str)
    ensures
        r@ == unquoted(s@),
{
    let len = s.unicode_len();
    let mut lo: usize = 0;
    while lo < len && s.get_char(lo) == '"'
        invariant
            len == s@.len(),
            lo <= len,
            forall|j: int| 0 <= j < lo ==> s@[j] == '"',
        decreases len - lo,
    {
        lo = lo + 1;
    }
    if lo == len {
        proof {
            lemma_leading_quotes_is(s@, len as int);
            lemma_quote_end_bound(s@);
            assert(unquoted(s@) =~= s@.subrange(len as int, len as int));
        }
        let r = s.substring_char(len, len);
        return r;
    }
    let mut hi: usize = len;
    while hi > lo && s.get_char(hi - 1) == '"'
        invariant
            len == s@.len(),
            lo < len,
            lo <= hi <= len,
            forall|j: int| 0 <= j < lo ==> s@[j] == '"',
            s@[lo as int] != '"',
            forall|j: int| hi <= j < len ==> s@[j] == '"',
        decreases hi,
    {
        hi = hi - 1;
    }
    proof {
        lemma_leading_quotes_is(s@, lo as int);
        lemma_quote_end_is(s@, hi as int);
    }
    s.substring_char(lo, hi)
}

/// Decimal rendering of an unsigned number.
pub fn u32_to_decimal(n: u32) -> (r: String)
    ensures
        r@ == spec_decimal(n as int),
{
    let mut out = String::new();
    push_decimal(n, &mut out);
    proof {
        assert(Seq::<char>::empty() + spec_decimal(n as int) =~= spec_decimal(n as int));
    }
    out
}

} // verus!
