//! Character-level text operations and their mathematical models.
//!
//! Text is modelled as `Seq<char>`. Every executable function here works on a
//! slice of characters and is specified by a spec function on sequences.
use vstd::prelude::*;
use vstd::slice::slice_subrange;
use vstd::slice::slice_to_vec;

verus! {

/// Whether `c` is a Unicode white-space character (the code points that carry
/// the `White_Space` property).
pub open spec fn is_whitespace(c: char) -> bool {
    let n = c as u32;
    ||| 0x09 <= n <= 0x0D
    ||| n == 0x20
    ||| n == 0x85
    ||| n == 0xA0
    ||| n == 0x1680
    ||| 0x2000 <= n <= 0x200A
    ||| n == 0x2028
    ||| n == 0x2029
    ||| n == 0x202F
    ||| n == 0x205F
    ||| n == 0x3000
}

/// Position of the first `c` in `s`, or `s.len()` where `s` holds none.
pub open spec fn first_index(s: Seq<char>, c: char) -> int
    decreases s.len(),
{
    if s.len() == 0 || s[0] == c {
        0
    } else {
        1 + first_index(s.drop_first(), c)
    }
}

/// How often `c` occurs in `s`.
pub open spec fn occurrences(s: Seq<char>, c: char) -> nat
    decreases s.len(),
{
    if s.len() == 0 {
        0
    } else if s[0] == c {
        1 + occurrences(s.drop_first(), c)
    } else {
        occurrences(s.drop_first(), c)
    }
}

/// Number of white-space characters at the start of `s`.
pub open spec fn leading_whitespace(s: Seq<char>) -> nat
    decreases s.len(),
{
    if s.len() > 0 && is_whitespace(s[0]) {
        1 + leading_whitespace(s.drop_first())
    } else {
        0
    }
}

/// Number of white-space characters at the end of `s`.
pub open spec fn trailing_whitespace(s: Seq<char>) -> nat
    decreases s.len(),
{
    if s.len() > 0 && is_whitespace(s.last()) {
        1 + trailing_whitespace(s.drop_last())
    } else {
        0
    }
}

/// `s` without its leading and trailing white space.
pub open spec fn trimmed(s: Seq<char>) -> Seq<char> {
    let rest = s.skip(leading_whitespace(s) as int);
    rest.take(rest.len() - trailing_whitespace(rest))
}

/// Whether `s` holds nothing but white space.
pub open spec fn is_blank(s: Seq<char>) -> bool {
    forall|i: int| 0 <= i < s.len() ==> is_whitespace(#[trigger] s[i])
}

/// The pieces of `s` between occurrences of `sep`. There is always at least
/// one piece; a piece may be empty.
pub open spec fn split_on(s: Seq<char>, sep: char) -> Seq<Seq<char>>
    decreases s.len(),
{
    let i = first_index(s, sep);
    if 0 <= i < s.len() {
        seq![s.take(i)] + split_on(s.skip(i + 1), sep)
    } else {
        seq![s]
    }
}

/// The pieces put together again, with one `sep` between neighbours.
pub open spec fn joined(parts: Seq<Seq<char>>, sep: char) -> Seq<char>
    decreases parts.len(),
{
    if parts.len() == 0 {
        Seq::empty()
    } else if parts.len() == 1 {
        parts[0]
    } else {
        joined(parts.drop_last(), sep) + seq![sep] + parts.last()
    }
}

/// `line` without one carriage return at its end, if it has one.
pub open spec fn without_carriage_return(line: Seq<char>) -> Seq<char> {
    if line.len() > 0 && line.last() == '\r' {
        line.drop_last()
    } else {
        line
    }
}

/// The lines of `s`. A line ends at a line feed, or at a carriage return
/// directly followed by one; the terminator is not part of the line. The last
/// line needs no terminator, and is then kept as it stands.
pub open spec fn lines_of(s: Seq<char>) -> Seq<Seq<char>>
    decreases s.len(),
{
    let i = first_index(s, '\n');
    if s.len() == 0 {
        Seq::empty()
    } else if 0 <= i < s.len() {
        seq![without_carriage_return(s.take(i))] + lines_of(s.skip(i + 1))
    } else {
        seq![s]
    }
}

/// `s` with every `c` taken out.
pub open spec fn without(s: Seq<char>, c: char) -> Seq<char>
    decreases s.len(),
{
    if s.len() == 0 {
        s
    } else if s.last() == c {
        without(s.drop_last(), c)
    } else {
        without(s.drop_last(), c).push(s.last())
    }
}

/// `s` with every `from` turned into `to`.
pub open spec fn replaced(s: Seq<char>, from: char, to: char) -> Seq<char> {
    Seq::new(
        s.len(),
        |i: int|
            if s[i] == from {
                to
            } else {
                s[i]
            },
    )
}

/// Each piece, trimmed.
pub open spec fn each_trimmed(parts: Seq<Seq<char>>) -> Seq<Seq<char>> {
    Seq::new(parts.len(), |i: int| trimmed(parts[i]))
}

/// `first_index` lies within `0..=s.len()`, no earlier position holds `c`,
/// and where it is below `s.len()` it points at a `c`.
pub proof fn lemma_first_index(s: Seq<char>, c: char)
    ensures
        0 <= first_index(s, c) <= s.len(),
        forall|j: int| 0 <= j < first_index(s, c) ==> s[j] != c,
        first_index(s, c) < s.len() ==> s[first_index(s, c)] == c,
    decreases s.len(),
{
    if s.len() == 0 || s[0] == c {
    } else {
        let t = s.drop_first();
        lemma_first_index(t, c);
        assert forall|j: int| 0 <= j < first_index(s, c) implies s[j] != c by {
            if j > 0 {
                assert(s[j] == t[j - 1]);
            }
        }
        if first_index(t, c) < t.len() {
            assert(s[first_index(t, c) + 1] == t[first_index(t, c)]);
        }
    }
}

/// A position that no `c` precedes and that holds `c` or ends `s` is the
/// first index of `c`.
pub proof fn lemma_first_index_unique(s: Seq<char>, c: char, k: int)
    requires
        0 <= k <= s.len(),
        forall|j: int| 0 <= j < k ==> s[j] != c,
        k < s.len() ==> s[k] == c,
    ensures
        first_index(s, c) == k,
    decreases k,
{
    if k > 0 {
        let t = s.drop_first();
        assert(s[0] != c);
        assert forall|j: int| 0 <= j < k - 1 implies t[j] != c by {
            assert(t[j] == s[j + 1]);
        }
        lemma_first_index_unique(t, c, k - 1);
    }
}

/// A position that only white space precedes and that holds something else
/// or ends `s` is the count of leading white space.
pub proof fn lemma_leading_whitespace_unique(s: Seq<char>, k: int)
    requires
        0 <= k <= s.len(),
        forall|j: int| 0 <= j < k ==> is_whitespace(#[trigger] s[j]),
        k < s.len() ==> !is_whitespace(s[k]),
    ensures
        leading_whitespace(s) == k,
    decreases k,
{
    if k > 0 {
        let t = s.drop_first();
        assert(is_whitespace(s[0]));
        assert forall|j: int| 0 <= j < k - 1 implies is_whitespace(#[trigger] t[j]) by {
            assert(t[j] == s[j + 1]);
        }
        lemma_leading_whitespace_unique(t, k - 1);
    }
}

/// The mirror image of [`lemma_leading_whitespace_unique`]: `k` characters
/// of white space end `s`, and what stands before them is something else.
pub proof fn lemma_trailing_whitespace_unique(s: Seq<char>, k: int)
    requires
        0 <= k <= s.len(),
        forall|j: int| s.len() - k <= j < s.len() ==> is_whitespace(#[trigger] s[j]),
        k < s.len() ==> !is_whitespace(s[s.len() - k - 1]),
    ensures
        trailing_whitespace(s) == k,
    decreases k,
{
    if k > 0 {
        let t = s.drop_last();
        assert(is_whitespace(s[s.len() - 1]));
        assert forall|j: int| t.len() - (k - 1) <= j < t.len() implies is_whitespace(
            #[trigger] t[j],
        ) by {
            assert(t[j] == s[j]);
        }
        lemma_trailing_whitespace_unique(t, k - 1);
    }
}

/// The leading white space of `s` is white space, and what follows it is not.
pub proof fn lemma_leading_whitespace(s: Seq<char>)
    ensures
        leading_whitespace(s) <= s.len(),
        forall|j: int| 0 <= j < leading_whitespace(s) ==> is_whitespace(#[trigger] s[j]),
        leading_whitespace(s) < s.len() ==> !is_whitespace(s[leading_whitespace(s) as int]),
    decreases s.len(),
{
    if s.len() > 0 && is_whitespace(s[0]) {
        let t = s.drop_first();
        lemma_leading_whitespace(t);
        assert forall|j: int| 0 <= j < leading_whitespace(s) implies is_whitespace(
            #[trigger] s[j],
        ) by {
            if j > 0 {
                assert(s[j] == t[j - 1]);
            }
        }
        let k = leading_whitespace(t) as int;
        if k < t.len() {
            assert(s[k + 1] == t[k]);
        }
    }
}

/// The trailing white space of `s` is white space, and what precedes it is
/// not.
pub proof fn lemma_trailing_whitespace(s: Seq<char>)
    ensures
        trailing_whitespace(s) <= s.len(),
        forall|j: int|
            s.len() - trailing_whitespace(s) <= j < s.len() ==> is_whitespace(#[trigger] s[j]),
        trailing_whitespace(s) < s.len() ==> !is_whitespace(
            s[s.len() - trailing_whitespace(s) - 1],
        ),
    decreases s.len(),
{
    if s.len() > 0 && is_whitespace(s.last()) {
        let t = s.drop_last();
        lemma_trailing_whitespace(t);
        assert forall|j: int|
            s.len() - trailing_whitespace(s) <= j < s.len() implies is_whitespace(
            #[trigger] s[j],
        ) by {
            if j < s.len() - 1 {
                assert(s[j] == t[j]);
            }
        }
        let k = trailing_whitespace(t) as int;
        if k < t.len() {
            assert(s[t.len() - k - 1] == t[t.len() - k - 1]);
        }
    }
}

/// Trimming cuts a blank head and a blank tail off `s`; what is left begins
/// and ends with something other than white space, and is empty exactly when
/// `s` is blank.
pub proof fn lemma_trimmed(s: Seq<char>)
    ensures
        exists|a: int, b: int|
            0 <= a <= b <= s.len() && #[trigger] s.subrange(a, b) == trimmed(s) && is_blank(
                s.take(a),
            ) && is_blank(s.skip(b)),
        trimmed(s).len() > 0 ==> !is_whitespace(trimmed(s).first()) && !is_whitespace(
            trimmed(s).last(),
        ),
        trimmed(s).len() == 0 <==> is_blank(s),
{
    let a = leading_whitespace(s) as int;
    lemma_leading_whitespace(s);
    let rest = s.skip(a);
    let k = trailing_whitespace(rest) as int;
    lemma_trailing_whitespace(rest);
    let b = s.len() - k;
    assert(rest.take(rest.len() - k) =~= s.subrange(a, b));
    assert(is_blank(s.skip(b))) by {
        assert forall|j: int| 0 <= j < s.skip(b).len() implies is_whitespace(
            #[trigger] s.skip(b)[j],
        ) by {
            assert(s.skip(b)[j] == rest[j + b - a]);
        }
    }
    if a < s.len() {
        assert(rest[0] == s[a]);
        if k == rest.len() {
            assert(is_whitespace(rest[0]));
        }
        assert(trimmed(s).first() == rest[0]);
        assert(trimmed(s).last() == rest[rest.len() - k - 1]);
    }
}

/// Text that holds anything but white space is not trimmed away.
pub proof fn lemma_trimmed_keeps(s: Seq<char>, i: int)
    requires
        0 <= i < s.len(),
        !is_whitespace(s[i]),
    ensures
        trimmed(s).len() > 0,
{
    lemma_trimmed(s);
}

/// Up to and including its first `c`, `s` holds `c` once; without any it
/// holds none.
pub proof fn lemma_occurrences_after_first(s: Seq<char>, c: char)
    ensures
        first_index(s, c) < s.len() ==> occurrences(s, c) == 1 + occurrences(
            s.skip(first_index(s, c) + 1),
            c,
        ),
        first_index(s, c) >= s.len() ==> occurrences(s, c) == 0,
    decreases s.len(),
{
    if s.len() == 0 {
    } else if s[0] == c {
        assert(s.skip(1) =~= s.drop_first());
    } else {
        let t = s.drop_first();
        lemma_occurrences_after_first(t, c);
        lemma_first_index(t, c);
        if first_index(t, c) < t.len() {
            assert(s.skip(first_index(s, c) + 1) =~= t.skip(first_index(t, c) + 1));
        }
    }
}

/// Splitting gives one piece more than there are separators.
pub proof fn lemma_split_count(s: Seq<char>, sep: char)
    ensures
        split_on(s, sep).len() == occurrences(s, sep) + 1,
    decreases s.len(),
{
    lemma_first_index(s, sep);
    lemma_occurrences_after_first(s, sep);
    let i = first_index(s, sep);
    if i < s.len() {
        lemma_split_count(s.skip(i + 1), sep);
    }
}

/// Joining unfolds at the front as it does at the back.
pub proof fn lemma_joined_front(first: Seq<char>, parts: Seq<Seq<char>>, sep: char)
    requires
        parts.len() >= 1,
    ensures
        joined(seq![first] + parts, sep) == first + seq![sep] + joined(parts, sep),
    decreases parts.len(),
{
    let all = seq![first] + parts;
    assert(all.last() == parts.last());
    assert(all.drop_last() =~= seq![first] + parts.drop_last());
    if parts.len() == 1 {
        assert(all.drop_last() =~= seq![first]);
        assert(joined(all.drop_last(), sep) =~= first);
    } else {
        lemma_joined_front(first, parts.drop_last(), sep);
        assert(joined(all, sep) =~= first + seq![sep] + joined(parts, sep));
    }
}

/// No piece holds a separator, and the pieces joined again are the text
/// that was split.
pub proof fn law_split_joined(s: Seq<char>, sep: char)
    ensures
        forall|k: int, j: int|
            0 <= k < split_on(s, sep).len() && 0 <= j < split_on(s, sep)[k].len()
                ==> #[trigger] split_on(s, sep)[k][j] != sep,
        joined(split_on(s, sep), sep) == s,
    decreases s.len(),
{
    lemma_first_index(s, sep);
    let i = first_index(s, sep);
    if i < s.len() {
        let rest = s.skip(i + 1);
        law_split_joined(rest, sep);
        lemma_split_count(rest, sep);
        lemma_joined_front(s.take(i), split_on(rest, sep), sep);
        assert(s.take(i) + seq![sep] + rest =~= s);
        assert forall|k: int, j: int|
            0 <= k < split_on(s, sep).len() && 0 <= j < split_on(s, sep)[k].len()
                implies #[trigger] split_on(s, sep)[k][j] != sep by {
            if k > 0 {
                assert(split_on(s, sep)[k] == split_on(rest, sep)[k - 1]);
            }
        }
    }
}

/// Decides [`is_whitespace`].
pub fn char_is_whitespace(c: char) -> (r: bool)
    ensures
        r == is_whitespace(c),
{
    let n: u32 = c as u32;
    (0x09 <= n && n <= 0x0D) || n == 0x20 || n == 0x85 || n == 0xA0 || n == 0x1680 || (0x2000 <= n
        && n <= 0x200A) || n == 0x2028 || n == 0x2029 || n == 0x202F || n == 0x205F || n == 0x3000
}

/// The characters of `s`, in order.
pub fn to_chars(s: &str) -> (v: Vec<char>)
    ensures
        v@ == s@,
{
    let mut v: Vec<char> = Vec::new();
    for c in it: s.chars()
        invariant
            v@ == it.seq().take(it.index() as int),
    {
        v.push(c);
    }
    v
}

/// The first position that holds `c`, or `s.len()` where none does.
pub fn find(s: &[char], c: char) -> (i: usize)
    ensures
        i <= s@.len(),
        i == first_index(s@, c),
{
    let mut i: usize = 0;
    while i < s.len() && s[i] != c
        invariant
            i <= s@.len(),
            forall|j: int| 0 <= j < i ==> s@[j] != c,
        decreases s@.len() - i,
    {
        i += 1;
    }
    proof {
        lemma_first_index_unique(s@, c, i as int);
    }
    i
}

/// `s` without its leading and trailing white space, as a part of `s`.
pub fn trim(s: &[char]) -> (t: &[char])
    ensures
        t@ == trimmed(s@),
{
    let mut start: usize = 0;
    while start < s.len() && char_is_whitespace(s[start])
        invariant
            start <= s@.len(),
            forall|j: int| 0 <= j < start ==> is_whitespace(#[trigger] s@[j]),
        decreases s@.len() - start,
    {
        start += 1;
    }
    let mut end: usize = s.len();
    while end > start && char_is_whitespace(s[end - 1])
        invariant
            start <= end <= s@.len(),
            forall|j: int| end <= j < s@.len() ==> is_whitespace(#[trigger] s@[j]),
        decreases end,
    {
        end -= 1;
    }
    proof {
        lemma_leading_whitespace_unique(s@, start as int);
        let rest = s@.skip(start as int);
        assert forall|j: int| rest.len() - (s@.len() - end) <= j < rest.len() implies is_whitespace(
            #[trigger] rest[j],
        ) by {
            assert(rest[j] == s@[j + start]);
        }
        if end > start {
            assert(rest[end - start - 1] == s@[end - 1]);
        }
        lemma_trailing_whitespace_unique(rest, s@.len() - end);
        assert(rest.take(end - start) =~= s@.subrange(start as int, end as int));
    }
    slice_subrange(s, start, end)
}

/// Puts the characters of `s` at the end of `out`.
pub fn append(out: &mut Vec<char>, s: &[char])
    ensures
        final(out)@ == old(out)@ + s@,
{
    let mut j: usize = 0;
    while j < s.len()
        invariant
            j <= s@.len(),
            out@ == old(out)@ + s@.take(j as int),
        decreases s@.len() - j,
    {
        out.push(s[j]);
        assert(s@.take(j + 1) =~= s@.take(j as int).push(s@[j as int]));
        j += 1;
    }
    proof {
        assert(s@.take(j as int) =~= s@);
    }
}

/// Each piece, trimmed.
pub fn trim_each(parts: &Vec<Vec<char>>) -> (out: Vec<Vec<char>>)
    ensures
        out.deep_view() == each_trimmed(parts.deep_view()),
{
    let mut out: Vec<Vec<char>> = Vec::new();
    let mut k: usize = 0;
    while k < parts.len()
        invariant
            k <= parts@.len(),
            out.deep_view() == each_trimmed(parts.deep_view()).take(k as int),
        decreases parts@.len() - k,
    {
        let ghost before = out.deep_view();
        let piece = slice_to_vec(trim(parts[k].as_slice()));
        assert(parts.deep_view()[k as int] =~= parts@[k as int]@);
        out.push(piece);
        assert(out.deep_view() =~~= before.push(piece@));
        assert(out.deep_view() =~= each_trimmed(parts.deep_view()).take(k + 1));
        k += 1;
    }
    proof {
        assert(each_trimmed(parts.deep_view()).take(k as int) =~= each_trimmed(parts.deep_view()));
    }
    out
}

/// The pieces of `s` between occurrences of `sep`.
pub fn split(s: &[char], sep: char) -> (parts: Vec<Vec<char>>)
    ensures
        parts.deep_view() == split_on(s@, sep),
{
    let mut parts: Vec<Vec<char>> = Vec::new();
    let mut pos: usize = 0;
    let mut i: usize = find(s, sep);
    proof {
        assert(s@.skip(0) =~= s@);
        assert(parts.deep_view() + split_on(s@, sep) =~= split_on(s@, sep));
    }
    while i < s.len()
        invariant
            pos <= i <= s@.len(),
            i == pos + first_index(s@.skip(pos as int), sep),
            split_on(s@, sep) == parts.deep_view() + split_on(s@.skip(pos as int), sep),
        decreases s@.len() - pos,
    {
        let piece = slice_to_vec(slice_subrange(s, pos, i));
        proof {
            let rest = s@.skip(pos as int);
            assert(rest.take(i - pos) =~= piece@);
            assert(rest.skip(i - pos + 1) =~= s@.skip(i + 1));
            assert(parts.deep_view().push(piece@) + split_on(s@.skip(i + 1), sep) =~= parts.deep_view()
                + split_on(rest, sep));
        }
        let ghost before = parts.deep_view();
        parts.push(piece);
        assert(parts.deep_view() =~~= before.push(piece@));
        pos = i + 1;
        i = pos + find(slice_subrange(s, pos, s.len()), sep);
    }
    let piece = slice_to_vec(slice_subrange(s, pos, i));
    proof {
        assert(s@.skip(pos as int) =~= piece@);
        assert(parts.deep_view().push(piece@) =~= parts.deep_view() + split_on(
            s@.skip(pos as int),
            sep,
        ));
    }
    let ghost before = parts.deep_view();
    parts.push(piece);
    assert(parts.deep_view() =~~= before.push(piece@));
    parts
}

/// The pieces put together, with one `sep` between neighbours.
pub fn join(parts: &[Vec<char>], sep: char) -> (out: Vec<char>)
    ensures
        out@ == joined(parts.deep_view(), sep),
{
    let mut out: Vec<char> = Vec::new();
    let mut k: usize = 0;
    while k < parts.len()
        invariant
            k <= parts@.len(),
            out@ == joined(parts.deep_view().take(k as int), sep),
        decreases parts@.len() - k,
    {
        let ghost done = parts.deep_view().take(k as int);
        let ghost next = parts.deep_view().take(k + 1);
        proof {
            assert(next.drop_last() =~= done);
            assert(next.last() =~= parts@[k as int]@);
        }
        if k > 0 {
            out.push(sep);
        }
        let piece = &parts[k];
        append(&mut out, piece.as_slice());
        proof {
            if k > 0 {
                assert(out@ =~= joined(done, sep) + seq![sep] + piece@);
            } else {
                assert(done.len() == 0);
                assert(out@ =~= piece@);
            }
        }
        k += 1;
    }
    proof {
        assert(parts.deep_view().take(k as int) =~= parts.deep_view());
    }
    out
}

/// The lines of `s`: see [`lines_of`].
pub fn lines(s: &[char]) -> (out: Vec<Vec<char>>)
    ensures
        out.deep_view() == lines_of(s@),
{
    let mut out: Vec<Vec<char>> = Vec::new();
    let mut pos: usize = 0;
    proof {
        assert(s@.skip(0) =~= s@);
        assert(out.deep_view() + lines_of(s@) =~= lines_of(s@));
    }
    while pos < s.len()
        invariant
            pos <= s@.len(),
            lines_of(s@) == out.deep_view() + lines_of(s@.skip(pos as int)),
        decreases s@.len() - pos,
    {
        let i = pos + find(slice_subrange(s, pos, s.len()), '\n');
        let ghost rest = s@.skip(pos as int);
        let ghost before = out.deep_view();
        if i < s.len() {
            let end = if i > pos && s[i - 1] == '\r' {
                i - 1
            } else {
                i
            };
            let line = slice_to_vec(slice_subrange(s, pos, end));
            proof {
                let raw = rest.take(i - pos);
                if i > pos {
                    assert(raw.last() == s@[i - 1]);
                }
                assert(without_carriage_return(raw) =~= line@);
                assert(rest.skip(i - pos + 1) =~= s@.skip(i + 1));
                assert(before.push(line@) + lines_of(s@.skip(i + 1)) =~= before + lines_of(rest));
            }
            out.push(line);
            pos = i + 1;
        } else {
            let line = slice_to_vec(slice_subrange(s, pos, i));
            proof {
                assert(rest =~= line@);
                assert(s@.skip(i as int).len() == 0);
                assert(before.push(line@) + lines_of(s@.skip(i as int)) =~= before + lines_of(rest));
            }
            out.push(line);
            pos = i;
        }
        assert(out.deep_view() =~~= before.push(out@[out@.len() - 1]@));
    }
    proof {
        assert(s@.skip(pos as int).len() == 0);
        assert(out.deep_view() + lines_of(s@.skip(pos as int)) =~= out.deep_view());
    }
    out
}

/// `s` with every `c` taken out.
pub fn remove_char(s: &[char], c: char) -> (out: Vec<char>)
    ensures
        out@ == without(s@, c),
{
    let mut out: Vec<char> = Vec::new();
    let mut i: usize = 0;
    while i < s.len()
        invariant
            i <= s@.len(),
            out@ == without(s@.take(i as int), c),
        decreases s@.len() - i,
    {
        proof {
            assert(s@.take(i + 1).drop_last() =~= s@.take(i as int));
        }
        if s[i] != c {
            out.push(s[i]);
        }
        i += 1;
    }
    proof {
        assert(s@.take(i as int) =~= s@);
    }
    out
}

/// `s` with every `from` turned into `to`.
pub fn replace_char(s: &[char], from: char, to: char) -> (out: Vec<char>)
    ensures
        out@ == replaced(s@, from, to),
{
    let mut out: Vec<char> = Vec::new();
    let mut i: usize = 0;
    while i < s.len()
        invariant
            i <= s@.len(),
            out@ == replaced(s@.take(i as int), from, to),
        decreases s@.len() - i,
    {
        if s[i] == from {
            out.push(to);
        } else {
            out.push(s[i]);
        }
        assert(out@ =~= replaced(s@.take(i + 1), from, to));
        i += 1;
    }
    proof {
        assert(s@.take(i as int) =~= s@);
    }
    out
}

/// The string that holds `chars`, in order. Calls `String::from_iter` of
/// std, which collects the characters it is given into a string; the
/// contract claims that the string then reads as `chars`.
#[verifier::external_body]
pub(crate) fn string_from_chars(chars: &[char]) -> (s: String)
    ensures
        s@ == chars@,
{
    String::from_iter(chars)
}

} // verus!
