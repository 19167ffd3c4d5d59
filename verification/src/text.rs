//! Character-level text utilities shared by the listing parser, the field
//! decoders and the stream aggregator: ASCII classification, bounded decimal
//! parsing, and searching within character sequences.

use vstd::prelude::*;

verus! {

/// The whitespace characters this crate trims and tokenises on
/// (the ASCII whitespace set).
pub open spec fn is_space_char(c: char) -> bool {
    c == ' ' || c == '\t' || c == '\n' || c == '\r' || c == '\x0c'
}

pub fn space_char(c: char) -> (r: bool)
    ensures
        r == is_space_char(c),
{
    c == ' ' || c == '\t' || c == '\n' || c == '\r' || c == '\x0c'
}

pub open spec fn is_digit_char(c: char) -> bool {
    48 <= c as u32 && c as u32 <= 57
}

pub open spec fn digit_val(c: char) -> int {
    c as u32 - 48
}

pub fn digit_char(c: char) -> (r: bool)
    ensures
        r == is_digit_char(c),
{
    let d = c as u32;
    48 <= d && d <= 57
}

/// How many decimal digit characters occur in `s`, anywhere.
pub open spec fn digit_count(s: Seq<char>) -> int
    decreases s.len(),
{
    if s.len() == 0 {
        0
    } else {
        digit_count(s.drop_last()) + (if is_digit_char(s.last()) {
            1int
        } else {
            0int
        })
    }
}

pub proof fn lemma_digit_count_bounds(s: Seq<char>)
    ensures
        0 <= digit_count(s) <= s.len(),
    decreases s.len(),
{
    if s.len() > 0 {
        lemma_digit_count_bounds(s.drop_last());
    }
}

/// Count the decimal digit characters of `v`.
pub fn count_digits(v: &Vec<char>) -> (r: usize)
    ensures
        r as int == digit_count(v@),
{
    let mut c: usize = 0;
    let mut i: usize = 0;
    proof {
        lemma_digit_count_bounds(v@);
    }
    while i < v.len()
        invariant
            0 <= i <= v@.len(),
            c as int == digit_count(v@.take(i as int)),
            c <= i,
        decreases v@.len() - i,
    {
        proof {
            assert(v@.take(i + 1).drop_last() =~= v@.take(i as int));
            assert(v@.take(i + 1).last() == v@[i as int]);
        }
        if digit_char(v[i]) {
            c += 1;
        }
        i += 1;
    }
    proof {
        assert(v@.take(v@.len() as int) =~= v@);
    }
    c
}

/// Value of a sequence of decimal digit characters, most significant first.
pub open spec fn dec_val(s: Seq<char>) -> int
    decreases s.len(),
{
    if s.len() == 0 {
        0
    } else {
        dec_val(s.drop_last()) * 10 + digit_val(s.last())
    }
}

pub open spec fn all_digits(s: Seq<char>) -> bool {
    forall|i: int| 0 <= i < s.len() ==> is_digit_char(#[trigger] s[i])
}

pub proof fn lemma_dec_val_nonneg(s: Seq<char>)
    requires
        all_digits(s),
    ensures
        dec_val(s) >= 0,
    decreases s.len(),
{
    if s.len() > 0 {
        assert(all_digits(s.drop_last()));
        lemma_dec_val_nonneg(s.drop_last());
    }
}

pub proof fn lemma_dec_val_prefix_le(s: Seq<char>, i: int)
    requires
        all_digits(s),
        0 <= i <= s.len(),
    ensures
        dec_val(s.take(i)) <= dec_val(s),
    decreases s.len() - i,
{
    if i == s.len() {
        assert(s.take(i) =~= s);
    } else {
        lemma_dec_val_prefix_le(s, i + 1);
        assert(s.take(i + 1).drop_last() =~= s.take(i));
        assert(dec_val(s.take(i + 1)) == dec_val(s.take(i)) * 10 + digit_val(s.take(i + 1).last()));
        assert(all_digits(s.take(i)));
        lemma_dec_val_nonneg(s.take(i));
        assert(is_digit_char(s[i]));
    }
}

/// A non-empty, all-digit text whose value fits below `bound` parses to its
/// value; anything else is rejected.
pub open spec fn parse_dec_spec(s: Seq<char>, bound: int) -> Option<int> {
    if s.len() > 0 && all_digits(s) && dec_val(s) <= bound {
        Some(dec_val(s))
    } else {
        None
    }
}

/// Parse a decimal number of at most `bound`, rejecting empty text, any
/// non-digit character, and values above `bound`.
pub fn parse_dec_bounded(s: &Vec<char>, bound: u32) -> (r: Option<u32>)
    requires
        bound <= 0x0FFF_FFFF,
    ensures
        match r {
            Some(v) => parse_dec_spec(s@, bound as int) == Some(v as int),
            None => parse_dec_spec(s@, bound as int) is None,
        },
{
    if s.len() == 0 {
        return None;
    }
    let mut val: u32 = 0;
    let mut i: usize = 0;
    while i < s.len()
        invariant
            0 <= i <= s@.len(),
            all_digits(s@.take(i as int)),
            val == dec_val(s@.take(i as int)),
            val <= bound,
            bound <= 0x0FFF_FFFF,
        decreases s@.len() - i,
    {
        let c = s[i];
        let d = c as u32;
        if d < 48 || d > 57 {
            assert(!is_digit_char(s@[i as int]));
            return None;
        }
        proof {
            assert(s@.take(i + 1).drop_last() =~= s@.take(i as int));
            assert(s@.take(i + 1).last() == s@[i as int]);
        }
        if val * 10 + (d - 48) > bound {
            proof {
                let j = i + 1;
                assert(all_digits(s@.take(j)));
                if all_digits(s@) {
                    lemma_dec_val_prefix_le(s@, j);
                    assert(dec_val(s@.take(j)) == val * 10 + (d - 48));
                }
            }
            return None;
        }
        val = val * 10 + (d - 48);
        i += 1;
    }
    proof {
        assert(s@.take(i as int) =~= s@);
    }
    Some(val)
}

/// Copy of `v[i..j]`.
pub fn subvec(v: &Vec<char>, i: usize, j: usize) -> (r: Vec<char>)
    requires
        i <= j <= v@.len(),
    ensures
        r@ == v@.subrange(i as int, j as int),
{
    let mut r: Vec<char> = Vec::new();
    let mut k: usize = i;
    while k < j
        invariant
            i <= k <= j <= v@.len(),
            r@ == v@.subrange(i as int, k as int),
        decreases j - k,
    {
        r.push(v[k]);
        proof {
            assert(v@.subrange(i as int, k + 1) =~= v@.subrange(i as int, k as int).push(v@[k as int]));
        }
        k += 1;
    }
    r
}

/// The characters of a string slice, in order.
pub fn str_chars(s: &str) -> (r: Vec<char>)
    ensures
        r@ == s@,
{
    let n = s.unicode_len();
    let mut r: Vec<char> = Vec::new();
    let mut i: usize = 0;
    while i < n
        invariant
            n == s@.len(),
            0 <= i <= n,
            r@ == s@.take(i as int),
        decreases n - i,
    {
        let c = s.get_char(i);
        proof {
            assert(s@.take(i + 1) =~= s@.take(i as int).push(s@[i as int]));
        }
        r.push(c);
        i += 1;
    }
    proof {
        assert(s@.take(n as int) =~= s@);
    }
    r
}

/// Relies on `String: FromIterator<char>`: collecting characters yields the
/// string made of exactly those characters, in order.
#[verifier::external_body]
pub fn chars_to_string(v: &Vec<char>) -> (r: String)
    ensures
        r@ == v@,
{
    v.iter().collect()
}

/// Index of the first occurrence of `c` at or after position `i`.
pub open spec fn find_char_at(s: Seq<char>, c: char, i: int) -> Option<int>
    decreases s.len() - i,
{
    if i < 0 || i >= s.len() {
        None
    } else if s[i] == c {
        Some(i)
    } else {
        find_char_at(s, c, i + 1)
    }
}

pub open spec fn find_char(s: Seq<char>, c: char) -> Option<int> {
    find_char_at(s, c, 0)
}

pub proof fn lemma_find_char_at(s: Seq<char>, c: char, i: int)
    requires
        0 <= i <= s.len(),
    ensures
        match find_char_at(s, c, i) {
            Some(j) => i <= j < s.len() && s[j] == c && (forall|k: int|
                i <= k < j ==> s[k] != c),
            None => forall|k: int| i <= k < s.len() ==> s[k] != c,
        },
    decreases s.len() - i,
{
    if i < s.len() && s[i] != c {
        lemma_find_char_at(s, c, i + 1);
    }
}

pub fn find_char_vec(s: &Vec<char>, c: char) -> (r: Option<usize>)
    ensures
        match r {
            Some(j) => find_char(s@, c) == Some(j as int) && j < s@.len() && s@[j as int] == c,
            None => find_char(s@, c) is None,
        },
{
    let mut i: usize = 0;
    while i < s.len()
        invariant
            0 <= i <= s@.len(),
            find_char(s@, c) == find_char_at(s@, c, i as int),
        decreases s@.len() - i,
    {
        if s[i] == c {
            proof {
                lemma_find_char_at(s@, c, i as int);
            }
            return Some(i);
        }
        i += 1;
    }
    None
}

/// Index of the last occurrence of `c` strictly before position `i`.
pub open spec fn rfind_char_before(s: Seq<char>, c: char, i: int) -> Option<int>
    decreases i,
{
    if i <= 0 || i > s.len() {
        None
    } else if s[i - 1] == c {
        Some(i - 1)
    } else {
        rfind_char_before(s, c, i - 1)
    }
}

pub open spec fn rfind_char(s: Seq<char>, c: char) -> Option<int> {
    rfind_char_before(s, c, s.len() as int)
}

pub proof fn lemma_rfind_char_before(s: Seq<char>, c: char, i: int)
    requires
        0 <= i <= s.len(),
    ensures
        match rfind_char_before(s, c, i) {
            Some(j) => 0 <= j < i && s[j] == c && (forall|k: int|
                j < k < i ==> s[k] != c),
            None => forall|k: int| 0 <= k < i ==> s[k] != c,
        },
    decreases i,
{
    if i > 0 && s[i - 1] != c {
        lemma_rfind_char_before(s, c, i - 1);
    }
}

pub fn rfind_char_vec(s: &Vec<char>, c: char) -> (r: Option<usize>)
    ensures
        match r {
            Some(j) => rfind_char(s@, c) == Some(j as int) && j < s@.len() && s@[j as int] == c,
            None => rfind_char(s@, c) is None,
        },
{
    let mut i: usize = s.len();
    while i > 0
        invariant
            0 <= i <= s@.len(),
            rfind_char(s@, c) == rfind_char_before(s@, c, i as int),
        decreases i,
    {
        if s[i - 1] == c {
            proof {
                lemma_rfind_char_before(s@, c, i as int);
            }
            return Some(i - 1);
        }
        i -= 1;
    }
    None
}

/// Index of the first occurrence of `pat` as a contiguous run at or after
/// position `i`.
pub open spec fn find_seq_at(s: Seq<char>, pat: Seq<char>, i: int) -> Option<int>
    decreases s.len() - i,
{
    if i < 0 || i + pat.len() > s.len() {
        None
    } else if pat.len() == 0 {
        Some(i)
    } else if s.subrange(i, i + pat.len() as int) == pat {
        Some(i)
    } else {
        find_seq_at(s, pat, i + 1)
    }
}

pub open spec fn find_seq(s: Seq<char>, pat: Seq<char>) -> Option<int> {
    find_seq_at(s, pat, 0)
}

pub open spec fn contains_seq(s: Seq<char>, pat: Seq<char>) -> bool {
    find_seq(s, pat) is Some
}

pub proof fn lemma_find_seq_at(s: Seq<char>, pat: Seq<char>, i: int)
    requires
        0 <= i <= s.len(),
    ensures
        match find_seq_at(s, pat, i) {
            Some(j) => i <= j && j + pat.len() <= s.len() && s.subrange(j, j + pat.len() as int)
                == pat,
            None => true,
        },
    decreases s.len() - i,
{
    if pat.len() > 0 && i + pat.len() <= s.len() && s.subrange(i, i + pat.len() as int) != pat {
        lemma_find_seq_at(s, pat, i + 1);
    }
}

/// `deep_view` of a character vector is its view.
pub proof fn lemma_char_vec_deep_view(v: &Vec<char>)
    ensures
        v.deep_view() == v@,
{
    assert(v.deep_view() =~= v@);
}

pub fn find_seq_vec(s: &Vec<char>, pat: &Vec<char>) -> (r: Option<usize>)
    requires
        pat@.len() >= 1,
    ensures
        match r {
            Some(j) => find_seq(s@, pat@) == Some(j as int) && j + pat@.len() <= s@.len(),
            None => find_seq(s@, pat@) is None,
        },
{
    let n = s.len();
    let m = pat.len();
    if m > n {
        return None;
    }
    let mut i: usize = 0;
    while i <= n - m
        invariant
            0 <= i <= n - m + 1,
            m <= n,
            n == s@.len(),
            m == pat@.len(),
            pat@.len() >= 1,
            find_seq(s@, pat@) == find_seq_at(s@, pat@, i as int),
        decreases s@.len() - i,
    {
        let mut j: usize = 0;
        let mut matches: bool = true;
        while j < m && matches
            invariant
                0 <= j <= pat@.len(),
                n == s@.len(),
                m == pat@.len(),
                i + m <= n,
                matches ==> s@.subrange(i as int, i + j) == pat@.take(j as int),
                !matches ==> s@.subrange(i as int, i + pat@.len()) != pat@,
            decreases pat@.len() - j,
        {
            if s[i + j] != pat[j] {
                proof {
                    assert(s@.subrange(i as int, i + pat@.len())[j as int] == s@[i + j]);
                }
                matches = false;
            } else {
                proof {
                    assert(s@.subrange(i as int, i + j + 1) =~= s@.subrange(i as int, i + j).push(
                        s@[i + j],
                    ));
                    assert(pat@.take(j + 1) =~= pat@.take(j as int).push(pat@[j as int]));
                }
            }
            j += 1;
        }
        if matches {
            proof {
                assert(j == pat@.len());
                assert(pat@.take(pat@.len() as int) =~= pat@);
            }
            return Some(i);
        }
        i += 1;
    }
    None
}

/// Split on every occurrence of `c`, keeping empty segments.
pub open spec fn split_char_spec(s: Seq<char>, c: char) -> Seq<Seq<char>>
    decreases s.len(),
    via split_char_spec_dec
{
    match find_char(s, c) {
        Some(i) => seq![s.take(i)] + split_char_spec(s.skip(i + 1), c),
        None => seq![s],
    }
}

#[via_fn]
proof fn split_char_spec_dec(s: Seq<char>, c: char) {
    lemma_find_char_at(s, c, 0);
}

pub fn split_char_vec(s: &Vec<char>, c: char) -> (r: Vec<Vec<char>>)
    ensures
        r.deep_view() == split_char_spec(s@, c),
        r@.len() >= 1,
    decreases s@.len(),
{
    let n = s.len();
    match find_char_vec(s, c) {
        Some(i) => {
            let head = subvec(s, 0, i);
            let tail = subvec(s, i + 1, n);
            proof {
                assert(head@ =~= s@.take(i as int));
                assert(tail@ =~= s@.skip(i + 1));
            }
            let r0 = split_char_vec(&tail, c);
            let mut r = r0;
            r.insert(0, head);
            proof {
                lemma_char_vec_deep_view(&head);
                assert(r.deep_view() =~= seq![s@.take(i as int)] + split_char_spec(
                    s@.skip(i + 1),
                    c,
                ));
            }
            r
        },
        None => {
            let whole = subvec(s, 0, n);
            let mut r: Vec<Vec<char>> = Vec::new();
            r.push(whole);
            proof {
                lemma_char_vec_deep_view(&whole);
                assert(s@.subrange(0, s@.len() as int) =~= s@);
                assert(r.deep_view() =~= seq![s@]);
            }
            r
        },
    }
}

pub proof fn lemma_split_char_min_len(s: Seq<char>, c: char)
    ensures
        split_char_spec(s, c).len() >= 1,
        find_char(s, c) is Some ==> split_char_spec(s, c).len() >= 2,
    decreases s.len(),
{
    lemma_find_char_at(s, c, 0);
    match find_char(s, c) {
        Some(i) => {
            lemma_split_char_min_len(s.skip(i + 1), c);
        },
        None => {},
    }
}

/// Split on every occurrence of the (non-empty) separator `pat`, keeping
/// empty segments.
pub open spec fn split_seq_spec(s: Seq<char>, pat: Seq<char>) -> Seq<Seq<char>>
    decreases s.len(),
    via split_seq_spec_dec
{
    if pat.len() == 0 {
        seq![s]
    } else {
        match find_seq(s, pat) {
            Some(i) => seq![s.take(i)] + split_seq_spec(s.skip(i + pat.len()), pat),
            None => seq![s],
        }
    }
}

#[via_fn]
proof fn split_seq_spec_dec(s: Seq<char>, pat: Seq<char>) {
    if pat.len() > 0 {
        lemma_find_seq_at(s, pat, 0);
    }
}

pub fn split_seq_vec(s: &Vec<char>, pat: &Vec<char>) -> (r: Vec<Vec<char>>)
    requires
        pat@.len() >= 1,
    ensures
        r.deep_view() == split_seq_spec(s@, pat@),
        r@.len() >= 1,
    decreases s@.len(),
{
    let n = s.len();
    match find_seq_vec(s, pat) {
        Some(i) => {
            let head = subvec(s, 0, i);
            let tail = subvec(s, i + pat.len(), n);
            proof {
                assert(head@ =~= s@.take(i as int));
                assert(tail@ =~= s@.skip(i + pat@.len()));
            }
            let r0 = split_seq_vec(&tail, pat);
            let mut r = r0;
            r.insert(0, head);
            proof {
                lemma_char_vec_deep_view(&head);
                assert(r.deep_view() =~= seq![s@.take(i as int)] + split_seq_spec(
                    s@.skip(i + pat@.len()),
                    pat@,
                ));
            }
            r
        },
        None => {
            let whole = subvec(s, 0, n);
            let mut r: Vec<Vec<char>> = Vec::new();
            r.push(whole);
            proof {
                lemma_char_vec_deep_view(&whole);
                assert(s@.subrange(0, s@.len() as int) =~= s@);
                assert(r.deep_view() =~= seq![s@]);
            }
            r
        },
    }
}

/// Concatenation of `parts` with a single `sep` between neighbours.
pub open spec fn join_spec(parts: Seq<Seq<char>>, sep: char) -> Seq<char>
    decreases parts.len(),
{
    if parts.len() == 0 {
        Seq::empty()
    } else if parts.len() == 1 {
        parts[0]
    } else {
        parts[0] + seq![sep] + join_spec(parts.drop_first(), sep)
    }
}

pub fn join_from(parts: &Vec<Vec<char>>, i: usize, sep: char) -> (r: Vec<char>)
    requires
        i <= parts@.len(),
    ensures
        r@ == join_spec(parts.deep_view().skip(i as int), sep),
    decreases parts@.len() - i,
{
    if i >= parts.len() {
        proof {
            assert(parts.deep_view().skip(i as int) =~= Seq::<Seq<char>>::empty());
        }
        Vec::new()
    } else if i == parts.len() - 1 {
        let r = subvec(&parts[i], 0, parts[i].len());
        proof {
            lemma_char_vec_deep_view(&parts[i as int]);
            assert(parts.deep_view().skip(i as int).len() == 1);
            assert(parts.deep_view().skip(i as int)[0] == parts@[i as int]@);
            assert(r@ =~= parts@[i as int]@);
        }
        r
    } else {
        let mut r = subvec(&parts[i], 0, parts[i].len());
        r.push(sep);
        let mut rest = join_from(parts, i + 1, sep);
        r.append(&mut rest);
        proof {
            lemma_char_vec_deep_view(&parts[i as int]);
            let pv = parts.deep_view().skip(i as int);
            assert(pv.len() >= 2);
            assert(pv[0] == parts@[i as int]@);
            assert(pv.drop_first() =~= parts.deep_view().skip(i + 1));
            assert(r@ =~= pv[0] + seq![sep] + join_spec(pv.drop_first(), sep));
        }
        r
    }
}

/// Leading ASCII whitespace removed.
pub open spec fn trim_start_spaces(s: Seq<char>) -> Seq<char>
    decreases s.len(),
{
    if s.len() > 0 && is_space_char(s[0]) {
        trim_start_spaces(s.drop_first())
    } else {
        s
    }
}

/// Trailing ASCII whitespace removed.
pub open spec fn trim_end_spaces(s: Seq<char>) -> Seq<char>
    decreases s.len(),
{
    if s.len() > 0 && is_space_char(s.last()) {
        trim_end_spaces(s.drop_last())
    } else {
        s
    }
}

/// Leading and trailing ASCII whitespace removed.
pub open spec fn trim_spaces(s: Seq<char>) -> Seq<char> {
    trim_end_spaces(trim_start_spaces(s))
}

pub fn trim_spaces_vec(s: &Vec<char>) -> (r: Vec<char>)
    ensures
        r@ == trim_spaces(s@),
{
    proof {
        assert(s@.skip(0) =~= s@);
    }
    let mut a: usize = 0;
    while a < s.len() && space_char(s[a])
        invariant
            0 <= a <= s@.len(),
            trim_start_spaces(s@) == trim_start_spaces(s@.skip(a as int)),
        decreases s@.len() - a,
    {
        proof {
            assert(s@.skip(a as int).drop_first() =~= s@.skip(a + 1));
        }
        a += 1;
    }
    proof {
        assert(trim_start_spaces(s@) == s@.skip(a as int));
    }
    proof {
        assert(s@.subrange(a as int, s@.len() as int) =~= s@.skip(a as int));
    }
    let mut b: usize = s.len();
    while b > a && space_char(s[b - 1])
        invariant
            0 <= a <= b <= s@.len(),
            trim_start_spaces(s@) == s@.skip(a as int),
            trim_end_spaces(s@.skip(a as int)) == trim_end_spaces(s@.subrange(a as int, b as int)),
        decreases b,
    {
        proof {
            assert(s@.subrange(a as int, b as int).last() == s@[b - 1]);
            assert(s@.subrange(a as int, b as int).drop_last() =~= s@.subrange(a as int, b - 1));
        }
        b -= 1;
    }
    proof {
        if b == a {
            assert(s@.subrange(a as int, b as int).len() == 0);
        }
        assert(trim_end_spaces(s@.subrange(a as int, b as int)) == s@.subrange(a as int, b as int));
    }
    subvec(s, a, b)
}

/// Leading occurrences of `x` or `y` removed.
pub open spec fn trim_start_pair(s: Seq<char>, x: char, y: char) -> Seq<char>
    decreases s.len(),
{
    if s.len() > 0 && (s[0] == x || s[0] == y) {
        trim_start_pair(s.drop_first(), x, y)
    } else {
        s
    }
}

/// Trailing occurrences of `x` or `y` removed.
pub open spec fn trim_end_pair(s: Seq<char>, x: char, y: char) -> Seq<char>
    decreases s.len(),
{
    if s.len() > 0 && (s.last() == x || s.last() == y) {
        trim_end_pair(s.drop_last(), x, y)
    } else {
        s
    }
}

/// Leading and trailing occurrences of `x` or `y` removed.
pub open spec fn trim_pair(s: Seq<char>, x: char, y: char) -> Seq<char> {
    trim_end_pair(trim_start_pair(s, x, y), x, y)
}

#[verifier::rlimit(30)]
pub fn trim_pair_vec(s: &Vec<char>, x: char, y: char) -> (r: Vec<char>)
    ensures
        r@ == trim_pair(s@, x, y),
{
    proof {
        assert(s@.skip(0) =~= s@);
    }
    let mut a: usize = 0;
    while a < s.len() && (s[a] == x || s[a] == y)
        invariant
            0 <= a <= s@.len(),
            trim_start_pair(s@, x, y) == trim_start_pair(s@.skip(a as int), x, y),
        decreases s@.len() - a,
    {
        proof {
            assert(s@.skip(a as int).drop_first() =~= s@.skip(a + 1));
        }
        a += 1;
    }
    proof {
        assert(trim_start_pair(s@, x, y) == s@.skip(a as int));
    }
    proof {
        assert(s@.subrange(a as int, s@.len() as int) =~= s@.skip(a as int));
    }
    let mut b: usize = s.len();
    while b > a && (s[b - 1] == x || s[b - 1] == y)
        invariant
            0 <= a <= b <= s@.len(),
            trim_start_pair(s@, x, y) == s@.skip(a as int),
            trim_end_pair(s@.skip(a as int), x, y) == trim_end_pair(
                s@.subrange(a as int, b as int),
                x,
                y,
            ),
        decreases b,
    {
        proof {
            assert(s@.subrange(a as int, b as int).last() == s@[b - 1]);
            assert(s@.subrange(a as int, b as int).drop_last() =~= s@.subrange(a as int, b - 1));
        }
        b -= 1;
    }
    proof {
        if b == a {
            assert(s@.subrange(a as int, b as int).len() == 0);
        }
        assert(trim_end_pair(s@.subrange(a as int, b as int), x, y) == s@.subrange(
            a as int,
            b as int,
        ));
    }
    subvec(s, a, b)
}

pub fn trim_end_pair_vec(s: &Vec<char>, x: char, y: char) -> (r: Vec<char>)
    ensures
        r@ == trim_end_pair(s@, x, y),
{
    proof {
        assert(s@.take(s@.len() as int) =~= s@);
    }
    let mut b: usize = s.len();
    while b > 0 && (s[b - 1] == x || s[b - 1] == y)
        invariant
            0 <= b <= s@.len(),
            trim_end_pair(s@, x, y) == trim_end_pair(s@.take(b as int), x, y),
        decreases b,
    {
        proof {
            assert(s@.take(b as int).last() == s@[b - 1]);
            assert(s@.take(b as int).drop_last() =~= s@.take(b - 1));
        }
        b -= 1;
    }
    proof {
        if b == 0 {
            assert(s@.take(b as int).len() == 0);
        }
        assert(trim_end_pair(s@.take(b as int), x, y) == s@.take(b as int));
    }
    subvec(s, 0, b)
}

/// Index of the first whitespace character at or after position `i`.
pub open spec fn find_space_at(s: Seq<char>, i: int) -> Option<int>
    decreases s.len() - i,
{
    if i < 0 || i >= s.len() {
        None
    } else if is_space_char(s[i]) {
        Some(i)
    } else {
        find_space_at(s, i + 1)
    }
}

/// Length of the leading whitespace run.
pub open spec fn space_run(s: Seq<char>) -> int
    decreases s.len(),
{
    if s.len() > 0 && is_space_char(s[0]) {
        1 + space_run(s.drop_first())
    } else {
        0
    }
}

pub proof fn lemma_space_run(s: Seq<char>)
    ensures
        0 <= space_run(s) <= s.len(),
        trim_start_spaces(s) == s.skip(space_run(s)),
        trim_start_spaces(s).len() > 0 ==> !is_space_char(trim_start_spaces(s)[0]),
    decreases s.len(),
{
    if s.len() > 0 && is_space_char(s[0]) {
        lemma_space_run(s.drop_first());
        assert(s.drop_first().skip(space_run(s.drop_first())) =~= s.skip(1 + space_run(
            s.drop_first(),
        )));
    } else {
        assert(s.skip(0) =~= s);
    }
}

/// The whitespace-delimited tokens of `s`, in order; never empty tokens.
pub open spec fn ws_tokens(s: Seq<char>) -> Seq<Seq<char>>
    decreases s.len(),
    via ws_tokens_dec
{
    let t = trim_start_spaces(s);
    if t.len() == 0 {
        Seq::empty()
    } else {
        let e = (match find_space_at(t, 0) {
            Some(j) => j,
            None => t.len() as int,
        });
        seq![t.take(e)] + ws_tokens(t.skip(e))
    }
}

#[via_fn]
proof fn ws_tokens_dec(s: Seq<char>) {
    lemma_space_run(s);
    let t = trim_start_spaces(s);
    if t.len() > 0 {
        lemma_find_space_at(t, 0);
    }
}

pub proof fn lemma_find_space_at(s: Seq<char>, i: int)
    requires
        0 <= i <= s.len(),
    ensures
        match find_space_at(s, i) {
            Some(j) => i <= j < s.len() && is_space_char(s[j]) && (forall|k: int|
                i <= k < j ==> !is_space_char(s[k])),
            None => forall|k: int| i <= k < s.len() ==> !is_space_char(s[k]),
        },
    decreases s.len() - i,
{
    if i < s.len() && !is_space_char(s[i]) {
        lemma_find_space_at(s, i + 1);
    }
}

pub fn ws_tokens_vec(s: &Vec<char>) -> (r: Vec<Vec<char>>)
    ensures
        r.deep_view() == ws_tokens(s@),
    decreases s@.len(),
{
    let n = s.len();
    proof {
        assert(s@.skip(0) =~= s@);
    }
    let mut a: usize = 0;
    while a < n && space_char(s[a])
        invariant
            0 <= a <= n,
            n == s@.len(),
            trim_start_spaces(s@) == trim_start_spaces(s@.skip(a as int)),
        decreases n - a,
    {
        proof {
            assert(s@.skip(a as int).drop_first() =~= s@.skip(a + 1));
        }
        a += 1;
    }
    proof {
        assert(trim_start_spaces(s@) == s@.skip(a as int));
    }
    if a == n {
        let r: Vec<Vec<char>> = Vec::new();
        proof {
            assert(r.deep_view() =~= ws_tokens(s@));
        }
        return r;
    }
    let ghost t = s@.skip(a as int);
    let mut e: usize = a;
    while e < n && !space_char(s[e])
        invariant
            a <= e <= n,
            n == s@.len(),
            t == s@.skip(a as int),
            t.len() > 0,
            find_space_at(t, 0) == find_space_at(t, e - a),
        decreases n - e,
    {
        e += 1;
    }
    proof {
        lemma_find_space_at(t, 0);
        if e < n {
            assert(is_space_char(t[e - a]));
            assert(find_space_at(t, e - a) == Some(e - a));
        } else {
            assert(find_space_at(t, e - a) is None);
        }
    }
    let tok = subvec(s, a, e);
    let rest = subvec(s, e, n);
    proof {
        let sp_e = (match find_space_at(t, 0) {
            Some(j) => j,
            None => t.len() as int,
        });
        assert(sp_e == e - a);
        assert(tok@ =~= t.take(sp_e));
        assert(rest@ =~= t.skip(sp_e));
        assert(e > a);
    }
    let r0 = ws_tokens_vec(&rest);
    let mut r = r0;
    proof {
        lemma_char_vec_deep_view(&tok);
    }
    r.insert(0, tok);
    proof {
        let sp_e = (match find_space_at(t, 0) {
            Some(j) => j,
            None => t.len() as int,
        });
        assert(r.deep_view() =~= seq![t.take(sp_e)] + ws_tokens(t.skip(sp_e)));
    }
    r
}

/// ASCII lower-casing of one character; all others unchanged.
pub open spec fn lower_char(c: char) -> char {
    if c == 'A' { 'a' }
    else if c == 'B' { 'b' }
    else if c == 'C' { 'c' }
    else if c == 'D' { 'd' }
    else if c == 'E' { 'e' }
    else if c == 'F' { 'f' }
    else if c == 'G' { 'g' }
    else if c == 'H' { 'h' }
    else if c == 'I' { 'i' }
    else if c == 'J' { 'j' }
    else if c == 'K' { 'k' }
    else if c == 'L' { 'l' }
    else if c == 'M' { 'm' }
    else if c == 'N' { 'n' }
    else if c == 'O' { 'o' }
    else if c == 'P' { 'p' }
    else if c == 'Q' { 'q' }
    else if c == 'R' { 'r' }
    else if c == 'S' { 's' }
    else if c == 'T' { 't' }
    else if c == 'U' { 'u' }
    else if c == 'V' { 'v' }
    else if c == 'W' { 'w' }
    else if c == 'X' { 'x' }
    else if c == 'Y' { 'y' }
    else if c == 'Z' { 'z' }
    else { c }
}

pub open spec fn lower_seq(s: Seq<char>) -> Seq<char> {
    s.map_values(|c: char| lower_char(c))
}

pub fn lower_char_exec(c: char) -> (r: char)
    ensures
        r == lower_char(c),
{
    if c == 'A' { 'a' }
    else if c == 'B' { 'b' }
    else if c == 'C' { 'c' }
    else if c == 'D' { 'd' }
    else if c == 'E' { 'e' }
    else if c == 'F' { 'f' }
    else if c == 'G' { 'g' }
    else if c == 'H' { 'h' }
    else if c == 'I' { 'i' }
    else if c == 'J' { 'j' }
    else if c == 'K' { 'k' }
    else if c == 'L' { 'l' }
    else if c == 'M' { 'm' }
    else if c == 'N' { 'n' }
    else if c == 'O' { 'o' }
    else if c == 'P' { 'p' }
    else if c == 'Q' { 'q' }
    else if c == 'R' { 'r' }
    else if c == 'S' { 's' }
    else if c == 'T' { 't' }
    else if c == 'U' { 'u' }
    else if c == 'V' { 'v' }
    else if c == 'W' { 'w' }
    else if c == 'X' { 'x' }
    else if c == 'Y' { 'y' }
    else if c == 'Z' { 'z' }
    else { c }
}

pub fn lower_vec(s: &Vec<char>) -> (r: Vec<char>)
    ensures
        r@ == lower_seq(s@),
{
    let mut r: Vec<char> = Vec::new();
    let mut i: usize = 0;
    while i < s.len()
        invariant
            0 <= i <= s@.len(),
            r@ =~= lower_seq(s@.take(i as int)),
        decreases s@.len() - i,
    {
        r.push(lower_char_exec(s[i]));
        proof {
            assert(lower_seq(s@.take(i + 1)) =~= lower_seq(s@.take(i as int)).push(
                lower_char(s@[i as int]),
            ));
        }
        i += 1;
    }
    proof {
        assert(s@.take(s@.len() as int) =~= s@);
    }
    r
}

/// Decimal digit character for a value below ten.
pub open spec fn digit_char_of(d: int) -> char {
    if d == 0 { '0' }
    else if d == 1 { '1' }
    else if d == 2 { '2' }
    else if d == 3 { '3' }
    else if d == 4 { '4' }
    else if d == 5 { '5' }
    else if d == 6 { '6' }
    else if d == 7 { '7' }
    else if d == 8 { '8' }
    else { '9' }
}

/// Decimal rendering of a non-negative number, no sign, no leading zeros
/// (a single zero for zero).
pub open spec fn dec_digits_of(n: int) -> Seq<char>
    decreases n,
{
    if n < 10 {
        seq![digit_char_of(n)]
    } else {
        dec_digits_of(n / 10) + seq![digit_char_of(n % 10)]
    }
}

fn digit_char_exec(d: u64) -> (r: char)
    requires
        d < 10,
    ensures
        r == digit_char_of(d as int),
{
    if d == 0 { '0' }
    else if d == 1 { '1' }
    else if d == 2 { '2' }
    else if d == 3 { '3' }
    else if d == 4 { '4' }
    else if d == 5 { '5' }
    else if d == 6 { '6' }
    else if d == 7 { '7' }
    else if d == 8 { '8' }
    else { '9' }
}

pub fn u64_dec_chars(n: u64) -> (r: Vec<char>)
    ensures
        r@ == dec_digits_of(n as int),
    decreases n,
{
    let c = digit_char_exec(n % 10);
    if n < 10 {
        let mut r: Vec<char> = Vec::new();
        r.push(c);
        proof {
            assert(r@ =~= seq![digit_char_of(n as int)]);
        }
        r
    } else {
        let mut r = u64_dec_chars(n / 10);
        r.push(c);
        proof {
            assert(r@ =~= dec_digits_of(n as int / 10) + seq![digit_char_of(n as int % 10)]);
        }
        r
    }
}

/// Whether two string slices spell the same characters.
pub fn str_eq(a: &str, b: &str) -> (r: bool)
    ensures
        r == (a@ == b@),
{
    let va = str_chars(a);
    vec_eq_str(&va, b)
}

/// Whether the characters of `v` spell exactly the string `s`.
pub fn vec_eq_str(v: &Vec<char>, s: &str) -> (r: bool)
    ensures
        r == (v@ == s@),
{
    let sc = str_chars(s);
    if v.len() != sc.len() {
        return false;
    }
    let mut i: usize = 0;
    while i < v.len()
        invariant
            0 <= i <= v@.len(),
            v@.len() == sc@.len(),
            sc@ == s@,
            forall|k: int| 0 <= k < i ==> v@[k] == sc@[k],
        decreases v@.len() - i,
    {
        if v[i] != sc[i] {
            return false;
        }
        i += 1;
    }
    proof {
        assert(v@ =~= sc@);
    }
    true
}

} // verus!
