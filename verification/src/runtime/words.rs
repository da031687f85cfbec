//! Cutting a line into words and reading numbers from them.

use vstd::prelude::*;

verus! {

/// White space as Unicode defines it: what is trimmed from the ends of a
/// line.
pub open spec fn is_space(c: char) -> bool {
    let n = c as u32;
    ||| 0x09 <= n <= 0x0D
    ||| n == 0x20
    ||| n == 0x85
    ||| n == 0xA0
    ||| n == 0x1680
    ||| 0x2000 <= n <= 0x200A
    ||| n == 0x2028
    ||| n == 0x2029
    ||| n == 0x202F
    ||| n == 0x205F
    ||| n == 0x3000
}

/// White space of ASCII: what separates two words. (The vertical tab is not
/// among it.)
pub open spec fn is_gap(c: char) -> bool {
    let n = c as u32;
    n == 0x20 || n == 0x09 || n == 0x0A || n == 0x0C || n == 0x0D
}

/// Where the line begins once the white space in front is dropped.
pub open spec fn trim_start(s: Seq<char>, from: int) -> int
    decreases s.len() - from,
{
    if 0 <= from < s.len() && is_space(s[from]) {
        trim_start(s, from + 1)
    } else {
        from
    }
}

/// Where the line ends once the white space behind is dropped, for a line
/// that begins at `lo`.
pub open spec fn trim_end(s: Seq<char>, lo: int, to: int) -> int
    decreases to - lo,
{
    if lo < to <= s.len() && is_space(s[to - 1]) {
        trim_end(s, lo, to - 1)
    } else {
        to
    }
}

/// The first position from `from` on that holds no separator, or `end`.
pub open spec fn skip_gaps(s: Seq<char>, from: int, end: int) -> int
    decreases end - from,
{
    if 0 <= from < end <= s.len() && is_gap(s[from]) {
        skip_gaps(s, from + 1, end)
    } else {
        from
    }
}

/// The first position from `from` on that holds a separator, or `end`.
pub open spec fn word_end(s: Seq<char>, from: int, end: int) -> int
    decreases end - from,
{
    if 0 <= from < end <= s.len() && !is_gap(s[from]) {
        word_end(s, from + 1, end)
    } else {
        from
    }
}

/// The words of `s` between `from` and `end`: the longest runs of
/// characters that are no separators, from left to right.
pub open spec fn words_between(s: Seq<char>, from: int, end: int) -> Seq<Seq<char>>
    decreases end - from,
{
    let a = skip_gaps(s, from, end);
    let b = word_end(s, a, end);
    if from <= a < b <= end {
        seq![s.subrange(a, b)] + words_between(s, b, end)
    } else {
        Seq::empty()
    }
}

/// The words of a line: the line is trimmed of white space at both ends and
/// then cut at its separators.
pub open spec fn words_of(s: Seq<char>) -> Seq<Seq<char>> {
    let lo = trim_start(s, 0);
    let hi = trim_end(s, lo, s.len() as int);
    words_between(s, lo, hi)
}

/// The words as plain values.
pub open spec fn views(words: Seq<String>) -> Seq<Seq<char>> {
    Seq::new(words.len(), |i: int| words[i]@)
}

/// Whether `c` is white space as Unicode defines it.
pub fn space(c: char) -> (b: bool)
    ensures
        b == is_space(c),
{
    let n = c as u32;
    (0x09 <= n && n <= 0x0D) || n == 0x20 || n == 0x85 || n == 0xA0 || n == 0x1680 || (0x2000 <= n
        && n <= 0x200A) || n == 0x2028 || n == 0x2029 || n == 0x202F || n == 0x205F || n == 0x3000
}

/// Whether `c` separates two words.
pub fn gap(c: char) -> (b: bool)
    ensures
        b == is_gap(c),
{
    let n = c as u32;
    n == 0x20 || n == 0x09 || n == 0x0A || n == 0x0C || n == 0x0D
}

/// Cuts a line into its words.
pub fn split_words(s: &str) -> (words: Vec<String>)
    ensures
        views(words@) == words_of(s@),
{
    let n = s.unicode_len();
    let mut lo: usize = 0;
    while lo < n && space(s.get_char(lo))
        invariant
            lo <= n,
            n == s@.len(),
            trim_start(s@, lo as int) == trim_start(s@, 0),
        decreases n - lo,
    {
        lo += 1;
    }
    let mut hi: usize = n;
    while lo < hi && space(s.get_char(hi - 1))
        invariant
            lo <= hi <= n,
            n == s@.len(),
            trim_end(s@, lo as int, hi as int) == trim_end(s@, lo as int, n as int),
        decreases hi - lo,
    {
        hi -= 1;
    }
    let ghost total = words_between(s@, lo as int, hi as int);
    let mut words: Vec<String> = Vec::new();
    let mut pos: usize = lo;
    assert(views(words@) + total =~= total);
    while pos < hi
        invariant
            lo <= pos <= hi <= n,
            n == s@.len(),
            views(words@) + words_between(s@, pos as int, hi as int) == total,
        decreases hi - pos,
    {
        let mut a: usize = pos;
        while a < hi && gap(s.get_char(a))
            invariant
                pos <= a <= hi <= n,
                n == s@.len(),
                skip_gaps(s@, a as int, hi as int) == skip_gaps(s@, pos as int, hi as int),
            decreases hi - a,
        {
            a += 1;
        }
        if a >= hi {
            assert(words_between(s@, pos as int, hi as int) =~= Seq::empty());
            assert(words_between(s@, hi as int, hi as int) =~= Seq::empty());
            pos = hi;
        } else {
            let mut b: usize = a + 1;
            assert(word_end(s@, a as int, hi as int) == word_end(s@, a + 1, hi as int));
            while b < hi && !gap(s.get_char(b))
                invariant
                    a < b <= hi <= n,
                    n == s@.len(),
                    word_end(s@, b as int, hi as int) == word_end(s@, a as int, hi as int),
                decreases hi - b,
            {
                b += 1;
            }
            let ghost before = views(words@);
            let word = s.substring_char(a, b).to_owned();
            words.push(word);
            proof {
                assert(views(words@) =~= before + seq![s@.subrange(a as int, b as int)]);
                assert(words_between(s@, pos as int, hi as int) =~= seq![
                    s@.subrange(a as int, b as int),
                ] + words_between(s@, b as int, hi as int));
                assert(views(words@) + words_between(s@, b as int, hi as int) =~= before + (seq![
                    s@.subrange(a as int, b as int),
                ] + words_between(s@, b as int, hi as int)));
            }
            pos = b;
        }
    }
    assert(words_between(s@, pos as int, hi as int) =~= Seq::empty());
    assert(views(words@) + Seq::<Seq<char>>::empty() =~= views(words@));
    words
}

/// The value of a decimal digit.
pub open spec fn digit(c: char) -> Option<int> {
    let n = c as u32;
    if 0x30 <= n <= 0x39 {
        Some(n - 0x30)
    } else {
        None
    }
}

/// The number that a run of decimal digits writes; none for an empty run
/// or one that holds anything else.
pub open spec fn decimal(s: Seq<char>) -> Option<int>
    decreases s.len(),
{
    if s.len() == 0 {
        None
    } else {
        match digit(s.last()) {
            None => None,
            Some(d) => if s.len() == 1 {
                Some(d)
            } else {
                match decimal(s.drop_last()) {
                    None => None,
                    Some(v) => Some(10 * v + d),
                }
            },
        }
    }
}

/// The number that a word writes: decimal digits, after at most one `+`,
/// whose value fits the machine's word.
pub open spec fn parsed_usize(s: Seq<char>) -> Option<usize> {
    let body = if s.len() > 0 && s[0] == '+' {
        s.skip(1)
    } else {
        s
    };
    match decimal(body) {
        Some(v) => if v <= usize::MAX {
            Some(v as usize)
        } else {
            None
        },
        None => None,
    }
}

/// Every beginning of a number is a number, and no larger than the whole.
pub proof fn lemma_decimal_prefix(s: Seq<char>, k: int)
    requires
        1 <= k <= s.len(),
        decimal(s) is Some,
    ensures
        decimal(s.take(k)) is Some,
        0 <= decimal(s.take(k))->0 <= decimal(s)->0,
        digit(s[k - 1]) is Some,
    decreases s.len(),
{
    if k == s.len() {
        assert(s.take(k) =~= s);
        if s.len() > 1 {
            lemma_decimal_prefix(s.drop_last(), k - 1);
        }
    } else {
        lemma_decimal_prefix(s.drop_last(), k);
        assert(s.drop_last().take(k) =~= s.take(k));
    }
}

fn digit_of(c: char) -> (d: Option<usize>)
    ensures
        match d {
            Some(v) => digit(c) == Some(v as int),
            None => digit(c) is None,
        },
{
    let n = c as u32;
    if 0x30 <= n && n <= 0x39 {
        Some((n - 0x30) as usize)
    } else {
        None
    }
}

/// Reads a number from a word.
pub fn parse_usize(s: &str) -> (r: Option<usize>)
    ensures
        r == parsed_usize(s@),
{
    let n = s.unicode_len();
    let start: usize = if n > 0 && s.get_char(0) == '+' {
        1
    } else {
        0
    };
    let ghost body = if start == 1 {
        s@.skip(1)
    } else {
        s@
    };
    if start >= n {
        return None;
    }
    let mut acc: usize = 0;
    let mut i: usize = start;
    while i < n
        invariant
            start <= i <= n,
            n == s@.len(),
            start <= 1,
            body.len() == n - start,
            body == (if s@.len() > 0 && s@[0] == '+' {
                s@.skip(1)
            } else {
                s@
            }),
            start == 1 <==> s@.len() > 0 && s@[0] == '+',
            i == start ==> acc == 0,
            i > start ==> decimal(body.take(i - start)) == Some(acc as int),
        decreases n - i,
    {
        let ghost k = i - start;
        proof {
            assert(body.take(k + 1).drop_last() =~= body.take(k));
            assert(body.take(k + 1).last() == s@[i as int]);
            if decimal(body) is Some {
                lemma_decimal_prefix(body, k + 1);
            }
        }
        match digit_of(s.get_char(i)) {
            None => {
                return None;
            },
            Some(d) => {
                if acc > (usize::MAX - d) / 10 {
                    return None;
                }
                acc = acc * 10 + d;
            },
        }
        i += 1;
    }
    assert(body.take(n - start) =~= body);
    Some(acc)
}

} // verus!
