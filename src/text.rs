//! Characters, words and numbers of the program text.

use vstd::prelude::*;
use vstd::std_specs::iter::IteratorSpec;

verus! {

/// Characters that separate words: those with the Unicode `White_Space`
/// property, as `char::is_whitespace` and `str::trim` take them.
pub open spec fn is_space(c: char) -> bool {
    ||| ('\u{9}' <= c && c <= '\u{D}')
    ||| c == '\u{20}'
    ||| c == '\u{85}'
    ||| c == '\u{A0}'
    ||| c == '\u{1680}'
    ||| ('\u{2000}' <= c && c <= '\u{200A}')
    ||| c == '\u{2028}'
    ||| c == '\u{2029}'
    ||| c == '\u{202F}'
    ||| c == '\u{205F}'
    ||| c == '\u{3000}'
}

/// Whether `c` separates words.
pub fn is_space_char(c: char) -> (r: bool)
    ensures
        r == is_space(c),
{
    ('\u{9}' <= c && c <= '\u{D}') || c == '\u{20}' || c == '\u{85}' || c == '\u{A0}' || c
        == '\u{1680}' || ('\u{2000}' <= c && c <= '\u{200A}') || c == '\u{2028}' || c
        == '\u{2029}' || c == '\u{202F}' || c == '\u{205F}' || c == '\u{3000}'
}

pub open spec fn is_digit(c: char) -> bool {
    '0' <= c && c <= '9'
}

/// An ASCII letter or digit.
pub open spec fn is_alnum(c: char) -> bool {
    is_digit(c) || ('a' <= c && c <= 'z') || ('A' <= c && c <= 'Z')
}

pub open spec fn all_digits(w: Seq<char>) -> bool {
    forall|i: int| 0 <= i < w.len() ==> is_digit(#[trigger] w[i])
}

pub open spec fn all_alnum(w: Seq<char>) -> bool {
    forall|i: int| 0 <= i < w.len() ==> is_alnum(#[trigger] w[i])
}

/// The value of a string of decimal digits.
pub open spec fn decimal_value(w: Seq<char>) -> nat
    decreases w.len(),
{
    if w.len() == 0 {
        0
    } else {
        decimal_value(w.drop_last()) * 10 + (w.last() as u32 - '0' as u32) as nat
    }
}

/// The index of the first `c` in `s`, or the length of `s` when there is none.
pub open spec fn first_index(s: Seq<char>, c: char) -> nat
    decreases s.len(),
{
    if s.len() == 0 {
        0
    } else if s[0] == c {
        0
    } else {
        1 + first_index(s.drop_first(), c)
    }
}

/// The maximal runs of non-space characters of `s`, in order.
pub open spec fn words(s: Seq<char>) -> Seq<Seq<char>>
    decreases s.len(),
{
    if s.len() == 0 {
        seq![]
    } else {
        let prev = words(s.drop_last());
        let c = s.last();
        if is_space(c) {
            prev
        } else if s.len() >= 2 && !is_space(s[s.len() - 2]) {
            prev.update(prev.len() - 1, prev.last().push(c))
        } else {
            prev.push(seq![c])
        }
    }
}

/// The lines of `s`, split at each newline; there is always at least one.
pub open spec fn source_lines(s: Seq<char>) -> Seq<Seq<char>>
    decreases s.len(),
{
    if s.len() == 0 {
        seq![seq![]]
    } else {
        let prev = source_lines(s.drop_last());
        if s.last() == '\n' {
            prev.push(seq![])
        } else {
            prev.update(prev.len() - 1, prev.last().push(s.last()))
        }
    }
}

proof fn lemma_first_index(s: Seq<char>, c: char, i: int)
    requires
        0 <= i <= s.len(),
        forall|j: int| 0 <= j < i ==> s[j] != c,
        i == s.len() || s[i] == c,
    ensures
        first_index(s, c) == i,
    decreases i,
{
    if i > 0 {
        lemma_first_index(s.drop_first(), c, i - 1);
    }
}

proof fn lemma_source_lines_nonempty(s: Seq<char>)
    ensures
        source_lines(s).len() >= 1,
    decreases s.len(),
{
    if s.len() > 0 {
        lemma_source_lines_nonempty(s.drop_last());
    }
}

/// The characters of `text`.
pub fn chars_of(text: &str) -> (r: Vec<char>)
    ensures
        r@ == text@,
{
    let mut out: Vec<char> = Vec::new();
    let mut it = text.chars();
    loop
        invariant
            out@ + it.remaining() == text@,
            it.decrease() is Some,
        ensures
            out@ == text@,
        decreases it.decrease()->0,
    {
        match it.next() {
            Some(c) => {
                out.push(c);
            },
            None => {
                assert(out@ =~= text@);
                break ;
            },
        }
    }
    out
}

/// The first index in `from..to` that holds `c`, or `to` when none does.
pub fn find_char(s: &Vec<char>, from: usize, to: usize, c: char) -> (r: usize)
    requires
        from <= to <= s@.len(),
    ensures
        from <= r <= to,
        r - from == first_index(s@.subrange(from as int, to as int), c),
{
    let mut i = from;
    while i < to
        invariant
            from <= i <= to <= s@.len(),
            forall|j: int| from <= j < i ==> s@[j] != c,
        ensures
            from <= i <= to,
            forall|j: int| from <= j < i ==> s@[j] != c,
            i == to || s@[i as int] == c,
        decreases to - i,
    {
        if s[i] == c {
            break ;
        }
        i = i + 1;
    }
    proof {
        lemma_first_index(s@.subrange(from as int, to as int), c, i - from);
    }
    i
}

/// The words of `s[from..to]`, each as the pair of its start and end index.
pub fn word_spans(s: &Vec<char>, from: usize, to: usize) -> (r: Vec<(usize, usize)>)
    requires
        from <= to <= s@.len(),
    ensures
        r@.len() == words(s@.subrange(from as int, to as int)).len(),
        forall|k: int|
            0 <= k < r@.len() ==> from <= (#[trigger] r@[k]).0 < r@[k].1 <= to && s@.subrange(
                r@[k].0 as int,
                r@[k].1 as int,
            ) == words(s@.subrange(from as int, to as int))[k],
{
    let mut spans: Vec<(usize, usize)> = Vec::new();
    let mut i = from;
    let mut in_word = false;
    while i < to
        invariant
            from <= i <= to <= s@.len(),
            in_word == (i > from && !is_space(s@[i - 1])),
            in_word ==> spans@.len() > 0 && spans@.last().1 == i,
            spans@.len() == words(s@.subrange(from as int, i as int)).len(),
            forall|k: int|
                0 <= k < spans@.len() ==> from <= (#[trigger] spans@[k]).0 < spans@[k].1 <= i
                    && s@.subrange(spans@[k].0 as int, spans@[k].1 as int) == words(
                    s@.subrange(from as int, i as int),
                )[k],
        decreases to - i,
    {
        let c = s[i];
        let ghost before = s@.subrange(from as int, i as int);
        let ghost after = s@.subrange(from as int, i + 1);
        assert(after.drop_last() =~= before);
        if is_space_char(c) {
            in_word = false;
        } else if in_word {
            let last = spans.len() - 1;
            let (a, _) = spans[last];
            spans.set(last, (a, i + 1));
            assert(s@.subrange(a as int, i + 1) =~= s@.subrange(a as int, i as int).push(c));
            assert forall|k: int| 0 <= k < spans@.len() implies from <= (#[trigger] spans@[k]).0
                < spans@[k].1 <= i + 1 && s@.subrange(spans@[k].0 as int, spans@[k].1 as int)
                == words(after)[k] by {
                if k < last {
                    assert(words(after)[k] == words(before)[k]);
                }
            }
        } else {
            spans.push((i, i + 1));
            in_word = true;
            assert(s@.subrange(i as int, i + 1) =~= seq![c]);
            assert forall|k: int| 0 <= k < spans@.len() implies from <= (#[trigger] spans@[k]).0
                < spans@[k].1 <= i + 1 && s@.subrange(spans@[k].0 as int, spans@[k].1 as int)
                == words(after)[k] by {
                if k < spans@.len() - 1 {
                    assert(words(after)[k] == words(before)[k]);
                }
            }
        }
        i = i + 1;
    }
    spans
}

/// Whether `s[from..to]` is the text of `lit`.
pub fn same_as(s: &Vec<char>, from: usize, to: usize, lit: &str) -> (r: bool)
    requires
        from <= to <= s@.len(),
    ensures
        r == (s@.subrange(from as int, to as int) == lit@),
{
    let n = lit.unicode_len();
    if to - from != n {
        return false;
    }
    let mut i: usize = 0;
    while i < n
        invariant
            i <= n == to - from,
            from <= to <= s@.len(),
            n == lit@.len(),
            forall|j: int| 0 <= j < i ==> s@[from + j] == lit@[j],
        decreases n - i,
    {
        if s[from + i] != lit.get_char(i) {
            assert(s@.subrange(from as int, to as int)[i as int] != lit@[i as int]);
            return false;
        }
        i = i + 1;
    }
    assert(s@.subrange(from as int, to as int) =~= lit@);
    true
}

/// The lines of `s`, each as the pair of its start and end index.
pub fn line_spans(s: &Vec<char>) -> (r: Vec<(usize, usize)>)
    ensures
        r@.len() == source_lines(s@).len(),
        forall|k: int|
            0 <= k < r@.len() ==> (#[trigger] r@[k]).0 <= r@[k].1 <= s@.len() && s@.subrange(
                r@[k].0 as int,
                r@[k].1 as int,
            ) == source_lines(s@)[k],
{
    let mut spans: Vec<(usize, usize)> = Vec::new();
    let mut start: usize = 0;
    let mut i: usize = 0;
    while i < s.len()
        invariant
            start <= i <= s@.len(),
            spans@.len() + 1 == source_lines(s@.take(i as int)).len(),
            s@.subrange(start as int, i as int) == source_lines(s@.take(i as int)).last(),
            forall|k: int|
                0 <= k < spans@.len() ==> (#[trigger] spans@[k]).0 <= spans@[k].1 <= i
                    && s@.subrange(spans@[k].0 as int, spans@[k].1 as int) == source_lines(
                    s@.take(i as int),
                )[k],
        decreases s@.len() - i,
    {
        let ghost before = s@.take(i as int);
        let ghost after = s@.take(i + 1);
        assert(after.drop_last() =~= before);
        proof {
            lemma_source_lines_nonempty(before);
        }
        if s[i] == '\n' {
            spans.push((start, i));
            start = i + 1;
            assert(s@.subrange(start as int, i + 1) =~= seq![]);
        } else {
            assert(s@.subrange(start as int, i + 1) =~= s@.subrange(start as int, i as int).push(
                s@[i as int],
            ));
        }
        assert forall|k: int| 0 <= k < spans@.len() implies (#[trigger] spans@[k]).0
            <= spans@[k].1 <= i + 1 && s@.subrange(spans@[k].0 as int, spans@[k].1 as int)
            == source_lines(after)[k] by {
            assert(source_lines(after)[k] == source_lines(before)[k]);
        }
        i = i + 1;
    }
    spans.push((start, i));
    assert(s@.take(i as int) =~= s@);
    spans
}

} // verus!
