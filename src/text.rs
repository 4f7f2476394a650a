//! Character-level views of program text: splitting into lines and words.
use vstd::prelude::*;
use vstd::std_specs::iter::IteratorSpec;

verus! {

broadcast use vstd::string::axiom_spec_iter;

/// The characters of `s`, in order.
pub fn chars_of(s: &str) -> (r: Vec<char>)
    ensures
        r@ == s@,
{
    let mut it = s.chars();
    let mut out: Vec<char> = Vec::new();
    loop
        invariant
            it.obeys_prophetic_iter_laws(),
            it.decrease() is Some,
            out@ + it.remaining() == s@,
        ensures
            out@ == s@,
        decreases it.decrease()->0,
    {
        match it.next() {
            Some(c) => {
                out.push(c);
            },
            None => {
                assert(out@ =~= s@);
                break;
            },
        }
    }
    out
}

/// Whether `c` has the Unicode `White_Space` property; such characters separate words.
pub open spec fn is_white_space(c: char) -> bool {
    let u = c as u32;
    ||| 0x09 <= u <= 0x0D
    ||| u == 0x20
    ||| u == 0x85
    ||| u == 0xA0
    ||| u == 0x1680
    ||| 0x2000 <= u <= 0x200A
    ||| u == 0x2028
    ||| u == 0x2029
    ||| u == 0x202F
    ||| u == 0x205F
    ||| u == 0x3000
}

/// Decides [`is_white_space`].
pub fn is_white(c: char) -> (r: bool)
    ensures
        r == is_white_space(c),
{
    let u = c as u32;
    (0x09 <= u && u <= 0x0D) || u == 0x20 || u == 0x85 || u == 0xA0 || u == 0x1680 || (0x2000
        <= u && u <= 0x200A) || u == 0x2028 || u == 0x2029 || u == 0x202F || u == 0x205F || u
        == 0x3000
}

/// Reading `s` left to right and cutting at white space: the words already
/// closed, and the word still open at the end of `s` (possibly empty).
pub open spec fn split_words(s: Seq<char>) -> (Seq<Seq<char>>, Seq<char>)
    decreases s.len(),
{
    if s.len() == 0 {
        (seq![], seq![])
    } else {
        let (done, open) = split_words(s.drop_last());
        if is_white_space(s.last()) {
            if open.len() > 0 {
                (done.push(open), seq![])
            } else {
                (done, seq![])
            }
        } else {
            (done, open.push(s.last()))
        }
    }
}

/// The maximal non-empty runs of non-white-space characters of `s`, in order.
pub open spec fn words_of(s: Seq<char>) -> Seq<Seq<char>> {
    let (done, open) = split_words(s);
    if open.len() > 0 {
        done.push(open)
    } else {
        done
    }
}

/// Reading `s` left to right and cutting at each `'\n'`: the lines already
/// closed, and the line still open at the end of `s`.
pub open spec fn split_lines(s: Seq<char>) -> (Seq<Seq<char>>, Seq<char>)
    decreases s.len(),
{
    if s.len() == 0 {
        (seq![], seq![])
    } else {
        let (done, open) = split_lines(s.drop_last());
        if s.last() == '\n' {
            (done.push(open), seq![])
        } else {
            (done, open.push(s.last()))
        }
    }
}

/// The lines of `s`: the pieces between line feeds, where an empty piece after
/// the last line feed (or an empty text) makes no line.
pub open spec fn lines_of(s: Seq<char>) -> Seq<Seq<char>> {
    let (done, open) = split_lines(s);
    if open.len() > 0 {
        done.push(open)
    } else {
        done
    }
}

/// `spans` cut out of `t`, in order, exactly the pieces `pieces`, each within `from..to`.
pub open spec fn spans_are(
    t: Seq<char>,
    spans: Seq<(usize, usize)>,
    pieces: Seq<Seq<char>>,
    from: int,
    to: int,
) -> bool {
    &&& spans.len() == pieces.len()
    &&& forall|k: int|
        0 <= k < spans.len() ==> from <= (#[trigger] spans[k]).0 <= spans[k].1 <= to
            && t.subrange(spans[k].0 as int, spans[k].1 as int) == pieces[k]
}

/// The positions in `t` of the words of `t[from..to]`.
pub fn word_spans(t: &Vec<char>, from: usize, to: usize) -> (r: Vec<(usize, usize)>)
    requires
        from <= to <= t@.len(),
    ensures
        spans_are(t@, r@, words_of(t@.subrange(from as int, to as int)), from as int, to as int),
{
    let mut r: Vec<(usize, usize)> = Vec::new();
    let mut start: usize = from;
    let mut i: usize = from;
    while i < to
        invariant
            from <= start <= i <= to <= t@.len(),
            spans_are(t@, r@, split_words(t@.subrange(from as int, i as int)).0, from as int, i as int),
            split_words(t@.subrange(from as int, i as int)).1 == t@.subrange(start as int, i as int),
        decreases to - i,
    {
        let ghost prev = t@.subrange(from as int, i as int);
        let ghost next = t@.subrange(from as int, i + 1);
        assert(next.drop_last() =~= prev);
        let ghost open = split_words(prev).1;
        if is_white(t[i]) {
            if start < i {
                r.push((start, i));
            }
            start = i + 1;
            assert(t@.subrange(start as int, i + 1) =~= Seq::<char>::empty());
        } else {
            assert(open.push(t@[i as int]) =~= t@.subrange(start as int, i + 1));
        }
        i = i + 1;
    }
    if start < to {
        r.push((start, to));
    }
    r
}

/// The positions in `t` of the lines of `t`.
pub fn line_spans(t: &Vec<char>) -> (r: Vec<(usize, usize)>)
    ensures
        spans_are(t@, r@, lines_of(t@), 0, t@.len() as int),
{
    let mut r: Vec<(usize, usize)> = Vec::new();
    let mut start: usize = 0;
    let mut i: usize = 0;
    while i < t.len()
        invariant
            start <= i <= t@.len(),
            spans_are(t@, r@, split_lines(t@.subrange(0, i as int)).0, 0, i as int),
            split_lines(t@.subrange(0, i as int)).1 == t@.subrange(start as int, i as int),
        decreases t@.len() - i,
    {
        let ghost prev = t@.subrange(0, i as int);
        let ghost next = t@.subrange(0, i + 1);
        assert(next.drop_last() =~= prev);
        let ghost open = split_lines(prev).1;
        if t[i] == '\n' {
            r.push((start, i));
            start = i + 1;
            assert(t@.subrange(start as int, i + 1) =~= Seq::<char>::empty());
        } else {
            assert(open.push(t@[i as int]) =~= t@.subrange(start as int, i + 1));
        }
        i = i + 1;
    }
    assert(t@.subrange(0, t@.len() as int) =~= t@);
    if start < t.len() {
        r.push((start, t.len()));
    }
    r
}

} // verus!
