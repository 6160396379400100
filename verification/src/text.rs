//! Character classes, line splitting and trimming, at the spec level over
//! `Seq<char>` and at the exec level over `&str`.

use vstd::prelude::*;

verus! {

/// ASCII whitespace: what pads or separates journal lines.
pub open spec fn is_space(c: char) -> bool {
    c == ' ' || c == '\t' || c == '\n' || c == '\r' || c == '\u{b}' || c == '\u{c}'
}

/// A text is blank when every character is whitespace (the empty text is blank).
pub open spec fn all_space(s: Seq<char>) -> bool {
    forall|i: int| 0 <= i < s.len() ==> is_space(#[trigger] s[i])
}

/// An ASCII uppercase letter.
pub open spec fn is_upper(c: char) -> bool {
    65 <= (c as u32) && (c as u32) <= 90
}

/// A line that opens with an uppercase letter: the heuristic section boundary.
pub open spec fn starts_upper(line: Seq<char>) -> bool {
    line.len() > 0 && is_upper(line[0])
}

/// Index of the first newline in `s`, or `s.len()` if there is none.
pub open spec fn first_newline(s: Seq<char>) -> int
    decreases s.len(),
{
    if s.len() == 0 {
        0
    } else if s[0] == '\n' {
        0
    } else {
        1 + first_newline(s.drop_first())
    }
}

pub proof fn lemma_first_newline(s: Seq<char>)
    ensures
        0 <= first_newline(s) <= s.len(),
        forall|i: int| 0 <= i < first_newline(s) ==> s[i] != '\n',
        first_newline(s) < s.len() ==> s[first_newline(s)] == '\n',
    decreases s.len(),
{
    if s.len() != 0 && s[0] != '\n' {
        lemma_first_newline(s.drop_first());
        assert forall|i: int| 0 <= i < first_newline(s) implies s[i] != '\n' by {
            if i > 0 {
                assert(s.drop_first()[i - 1] == s[i]);
            }
        }
    }
}

/// `first_newline` is determined by any witness position `k`.
pub proof fn lemma_first_newline_is(s: Seq<char>, k: int)
    requires
        0 <= k <= s.len(),
        forall|i: int| 0 <= i < k ==> s[i] != '\n',
        k < s.len() ==> s[k] == '\n',
    ensures
        first_newline(s) == k,
    decreases s.len(),
{
    if s.len() != 0 && s[0] != '\n' {
        lemma_first_newline_is(s.drop_first(), k - 1);
    }
}

/// The lines of `s`, split at `'\n'`; terminators are not part of the lines.
/// A final fragment without a terminator still forms a line.
pub open spec fn lines_of(s: Seq<char>) -> Seq<Seq<char>>
    decreases s.len(),
{
    if s.len() == 0 {
        Seq::empty()
    } else {
        let j = first_newline(s);
        if 0 <= j && j < s.len() {
            seq![s.take(j)] + lines_of(s.skip(j + 1))
        } else {
            seq![s]
        }
    }
}

/// Rejoins lines, terminating every line with `'\n'`.
pub open spec fn unlines(ls: Seq<Seq<char>>) -> Seq<char>
    decreases ls.len(),
{
    if ls.len() == 0 {
        Seq::empty()
    } else {
        ls[0] + seq!['\n'] + unlines(ls.drop_first())
    }
}

/// Splitting then rejoining is the identity on texts that end with a newline.
pub proof fn lemma_unlines_lines(s: Seq<char>)
    requires
        s.len() == 0 || s[s.len() - 1] == '\n',
    ensures
        unlines(lines_of(s)) == s,
    decreases s.len(),
{
    if s.len() != 0 {
        let j = first_newline(s);
        lemma_first_newline(s);
        if j < s.len() {
            let rest = s.skip(j + 1);
            if rest.len() > 0 {
                assert(rest[rest.len() - 1] == s[s.len() - 1]);
            }
            lemma_unlines_lines(rest);
            assert(lines_of(s) == seq![s.take(j)] + lines_of(rest));
            assert((seq![s.take(j)] + lines_of(rest)).drop_first() =~= lines_of(rest));
            assert(unlines(lines_of(s)) == s.take(j) + seq!['\n'] + unlines(lines_of(rest)));
            assert(s.take(j) + seq!['\n'] + rest =~= s);
        } else {
            assert(s[s.len() - 1] == '\n');
            assert(false);
        }
    }
}

/// Splitting then rejoining in general: a missing final newline is supplied.
pub proof fn lemma_unlines_lines_general(s: Seq<char>)
    ensures
        unlines(lines_of(s)) == if s.len() == 0 || s[s.len() - 1] == '\n' {
            s
        } else {
            s.push('\n')
        },
    decreases s.len(),
{
    if s.len() != 0 {
        let j = first_newline(s);
        lemma_first_newline(s);
        if j < s.len() {
            let rest = s.skip(j + 1);
            lemma_unlines_lines_general(rest);
            assert(lines_of(s) == seq![s.take(j)] + lines_of(rest));
            assert((seq![s.take(j)] + lines_of(rest)).drop_first() =~= lines_of(rest));
            assert(unlines(lines_of(s)) == s.take(j) + seq!['\n'] + unlines(lines_of(rest)));
            if rest.len() == 0 {
                assert(s.take(j) + seq!['\n'] + unlines(lines_of(rest)) =~= s);
                assert(s[s.len() - 1] == '\n');
            } else {
                assert(rest[rest.len() - 1] == s[s.len() - 1]);
                if s[s.len() - 1] == '\n' {
                    assert(s.take(j) + seq!['\n'] + rest =~= s);
                } else {
                    assert(s.take(j) + seq!['\n'] + rest.push('\n') =~= s.push('\n'));
                }
            }
        } else {
            assert(lines_of(s) == seq![s]);
            assert(seq![s].drop_first() =~= Seq::<Seq<char>>::empty());
            assert(unlines(lines_of(s)) == s + seq!['\n'] + unlines(Seq::<Seq<char>>::empty()));
            assert(s + seq!['\n'] + Seq::<char>::empty() =~= s.push('\n'));
            assert(s[s.len() - 1] != '\n');
        }
    }
}

/// Rejoining then splitting is the identity on newline-free lines.
pub proof fn lemma_lines_unlines(ls: Seq<Seq<char>>)
    requires
        forall|k: int| 0 <= k < ls.len() ==> !(#[trigger] ls[k]).contains('\n'),
    ensures
        lines_of(unlines(ls)) == ls,
    decreases ls.len(),
{
    if ls.len() == 0 {
        assert(unlines(ls).len() == 0);
        assert(lines_of(unlines(ls)) =~= ls);
    } else {
        let u = unlines(ls);
        let l0 = ls[0];
        let rest = unlines(ls.drop_first());
        assert(u == l0 + seq!['\n'] + rest);
        assert forall|i: int| 0 <= i < l0.len() implies u[i] != '\n' by {
            assert((l0 + seq!['\n'])[i] == l0[i]);
            assert(u[i] == l0[i]);
            if l0[i] == '\n' {
                assert(ls[0].contains('\n'));
            }
        }
        assert(u[l0.len() as int] == '\n') by {
            assert((l0 + seq!['\n'])[l0.len() as int] == '\n');
        }
        assert(u.len() > l0.len());
        lemma_first_newline_is(u, l0.len() as int);
        assert(u.take(l0.len() as int) =~= l0);
        assert(u.skip(l0.len() as int + 1) =~= rest);
        assert forall|k: int| 0 <= k < ls.drop_first().len() implies !(
        #[trigger] ls.drop_first()[k]).contains('\n') by {
            assert(ls.drop_first()[k] == ls[k + 1]);
        }
        lemma_lines_unlines(ls.drop_first());
        assert(lines_of(u) == seq![l0] + lines_of(rest));
        assert(seq![l0] + ls.drop_first() =~= ls);
    }
}

/// No line produced by `lines_of` contains a newline.
pub proof fn lemma_lines_no_newline(s: Seq<char>)
    ensures
        forall|k: int|
            0 <= k < lines_of(s).len() ==> !(#[trigger] lines_of(s)[k]).contains('\n'),
    decreases s.len(),
{
    if s.len() != 0 {
        let j = first_newline(s);
        lemma_first_newline(s);
        if j < s.len() {
            lemma_lines_no_newline(s.skip(j + 1));
            assert forall|k: int| 0 <= k < lines_of(s).len() implies !(#[trigger] lines_of(
                s,
            )[k]).contains('\n') by {
                if k == 0 {
                    assert(lines_of(s)[0] == s.take(j));
                    assert forall|i: int| 0 <= i < s.take(j).len() implies s.take(j)[i] != '\n' by {
                        assert(s.take(j)[i] == s[i]);
                    }
                } else {
                    assert(lines_of(s)[k] == lines_of(s.skip(j + 1))[k - 1]);
                }
            }
        } else {
            assert forall|i: int| 0 <= i < s.len() implies s[i] != '\n' by {}
        }
    }
}

/// Blankness distributes over concatenation.
pub proof fn lemma_all_space_add(a: Seq<char>, b: Seq<char>)
    ensures
        all_space(a + b) == (all_space(a) && all_space(b)),
{
    if all_space(a + b) {
        assert forall|i: int| 0 <= i < a.len() implies is_space(#[trigger] a[i]) by {
            assert((a + b)[i] == a[i]);
        }
        assert forall|i: int| 0 <= i < b.len() implies is_space(#[trigger] b[i]) by {
            assert((a + b)[a.len() + i] == b[i]);
        }
    }
    if all_space(a) && all_space(b) {
        assert forall|i: int| 0 <= i < (a + b).len() implies is_space(#[trigger] (a + b)[i]) by {
            if i < a.len() {
                assert((a + b)[i] == a[i]);
            } else {
                assert((a + b)[i] == b[i - a.len()]);
            }
        }
    }
}

/// Whitespace stripped from the front.
pub open spec fn trim_start(s: Seq<char>) -> Seq<char>
    decreases s.len(),
{
    if s.len() == 0 {
        s
    } else if is_space(s[0]) {
        trim_start(s.drop_first())
    } else {
        s
    }
}

/// Whitespace stripped from the back.
pub open spec fn trim_end(s: Seq<char>) -> Seq<char>
    decreases s.len(),
{
    if s.len() == 0 {
        s
    } else if is_space(s[s.len() - 1]) {
        trim_end(s.drop_last())
    } else {
        s
    }
}

/// Whitespace stripped from both ends.
pub open spec fn trim_spec(s: Seq<char>) -> Seq<char> {
    trim_end(trim_start(s))
}

pub proof fn lemma_trim_start_is(s: Seq<char>, k: int)
    requires
        0 <= k <= s.len(),
        forall|i: int| 0 <= i < k ==> is_space(#[trigger] s[i]),
        k < s.len() ==> !is_space(s[k]),
    ensures
        trim_start(s) == s.skip(k),
    decreases s.len(),
{
    if s.len() == 0 {
        assert(s.skip(0) =~= s);
    } else if is_space(s[0]) {
        if k == 0 {
            assert(!is_space(s[0]));
            assert(false);
        }
        lemma_trim_start_is(s.drop_first(), k - 1);
        assert(s.drop_first().skip(k - 1) =~= s.skip(k));
    } else {
        assert(k == 0);
        assert(s.skip(0) =~= s);
    }
}

pub proof fn lemma_trim_end_is(s: Seq<char>, k: int)
    requires
        0 <= k <= s.len(),
        forall|i: int| k <= i < s.len() ==> is_space(#[trigger] s[i]),
        k > 0 ==> !is_space(s[k - 1]),
    ensures
        trim_end(s) == s.take(k),
    decreases s.len(),
{
    if s.len() == 0 {
        assert(s.take(0) =~= s);
    } else if is_space(s[s.len() - 1]) {
        if k == s.len() {
            assert(false);
        }
        lemma_trim_end_is(s.drop_last(), k);
        assert(s.drop_last().take(k) =~= s.take(k));
    } else {
        assert(k == s.len());
        assert(s.take(k) =~= s);
    }
}

/// Exec test for [`is_space`].
pub fn is_space_char(c: char) -> (b: bool)
    ensures
        b == is_space(c),
{
    c == ' ' || c == '\t' || c == '\n' || c == '\r' || c == '\u{b}' || c == '\u{c}'
}

/// Exec test for [`all_space`] on a string slice.
pub fn str_all_space(s: &str) -> (b: bool)
    ensures
        b == all_space(s@),
{
    let n = s.unicode_len();
    let mut i: usize = 0;
    while i < n
        invariant
            0 <= i <= n,
            n == s@.len(),
            forall|k: int| 0 <= k < i ==> is_space(#[trigger] s@[k]),
        decreases n - i,
    {
        if !is_space_char(s.get_char(i)) {
            return false;
        }
        i += 1;
    }
    true
}

/// Exec equality of two string slices, at the character level.
pub fn str_eq(a: &str, b: &str) -> (r: bool)
    ensures
        r == (a@ == b@),
{
    let la = a.unicode_len();
    let lb = b.unicode_len();
    if la != lb {
        return false;
    }
    let mut i: usize = 0;
    while i < la
        invariant
            0 <= i <= la,
            la == a@.len(),
            la == b@.len(),
            forall|k: int| 0 <= k < i ==> a@[k] == b@[k],
        decreases la - i,
    {
        if a.get_char(i) != b.get_char(i) {
            return false;
        }
        i += 1;
    }
    proof {
        assert(a@ =~= b@);
    }
    true
}

/// Exec test for [`starts_upper`].
pub fn str_starts_upper(line: &str) -> (b: bool)
    ensures
        b == starts_upper(line@),
{
    if line.unicode_len() == 0 {
        return false;
    }
    let c = line.get_char(0);
    let u = c as u32;
    65 <= u && u <= 90
}

/// Exec trimming: the trimmed slice of `s`.
pub fn str_trim<'a>(s: &'a str) -> (r: &'a str)
    ensures
        r@ == trim_spec(s@),
{
    let n = s.unicode_len();
    let mut start: usize = 0;
    while start < n && is_space_char(s.get_char(start))
        invariant
            0 <= start <= n,
            n == s@.len(),
            forall|k: int| 0 <= k < start ==> is_space(#[trigger] s@[k]),
        decreases n - start,
    {
        start += 1;
    }
    proof {
        lemma_trim_start_is(s@, start as int);
    }
    let mut end: usize = n;
    while end > start && is_space_char(s.get_char(end - 1))
        invariant
            start <= end <= n,
            n == s@.len(),
            forall|k: int| end <= k < n ==> is_space(#[trigger] s@[k]),
            start < s@.len() ==> !is_space(s@[start as int]),
        decreases end,
    {
        end -= 1;
    }
    proof {
        let t = s@.skip(start as int);
        assert forall|i: int| (end - start) <= i < t.len() implies is_space(#[trigger] t[i]) by {
            assert(t[i] == s@[start + i]);
        }
        if end > start {
            assert(t[end - start - 1] == s@[end - 1]);
        }
        lemma_trim_end_is(t, end - start as int);
        assert(t.take(end - start as int) =~= s@.subrange(start as int, end as int));
    }
    s.substring_char(start, end)
}

} // verus!
