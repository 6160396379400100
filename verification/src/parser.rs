//! Splitting the flat log file into entry blocks.
//!
//! An entry begins at a line that opens with the `Log: ` marker; every line up
//! to the next such line belongs to it. Lines before the first marker join the
//! first entry. Blocks that are entirely whitespace are dropped. Each returned
//! block carries a `'\n'` after every line, so concatenating the blocks
//! reproduces a newline-terminated input.

use vstd::prelude::*;

use crate::text::{
    all_space, first_newline, is_space, lemma_all_space_add, lemma_first_newline,
    lemma_first_newline_is, lemma_unlines_lines, lines_of, str_all_space, unlines,
};

verus! {

/// A line that starts a new entry: it opens with the `Log: ` marker.
pub open spec fn is_header_line(line: Seq<char>) -> bool {
    line.len() >= 5 && line.take(5) == "Log: "@
}

/// The parse, one line at a time: `cur` is the block being accumulated and
/// `first` records that no header line has been seen yet.
pub open spec fn parse_rec(ls: Seq<Seq<char>>, cur: Seq<char>, first: bool) -> Seq<Seq<char>>
    decreases ls.len(),
{
    if ls.len() == 0 {
        if all_space(cur) {
            Seq::empty()
        } else {
            seq![cur]
        }
    } else {
        let l = ls[0];
        if is_header_line(l) && !first {
            let rest = parse_rec(ls.drop_first(), l + seq!['\n'], false);
            if all_space(cur) {
                rest
            } else {
                seq![cur] + rest
            }
        } else if is_header_line(l) {
            parse_rec(ls.drop_first(), cur + l + seq!['\n'], false)
        } else {
            parse_rec(ls.drop_first(), cur + l + seq!['\n'], first)
        }
    }
}

/// The entry blocks of a whole file.
pub open spec fn parse_spec(content: Seq<char>) -> Seq<Seq<char>> {
    parse_rec(lines_of(content), Seq::empty(), true)
}

/// All blocks laid end to end.
pub open spec fn concat_all(bs: Seq<Seq<char>>) -> Seq<char>
    decreases bs.len(),
{
    if bs.len() == 0 {
        Seq::empty()
    } else {
        bs[0] + concat_all(bs.drop_first())
    }
}

/// Exec test for [`is_header_line`].
pub fn starts_with_log(line: &str) -> (b: bool)
    ensures
        b == is_header_line(line@),
{
    proof {
        reveal_strlit("Log: ");
    }
    if line.unicode_len() < 5 {
        return false;
    }
    let r = line.get_char(0) == 'L' && line.get_char(1) == 'o' && line.get_char(2) == 'g'
        && line.get_char(3) == ':' && line.get_char(4) == ' ';
    proof {
        assert forall|i: int| 0 <= i < 5 implies line@.take(5)[i] == line@[i] by {}
        if r {
            assert(line@.take(5) =~= "Log: "@);
        }
        if is_header_line(line@) {
            assert(line@[0] == 'L' && line@[1] == 'o' && line@[2] == 'g' && line@[3] == ':'
                && line@[4] == ' ');
        }
    }
    r
}

/// Splits the file content into entry blocks, as [`parse_spec`] describes.
pub fn parse_logs(content: &str) -> (logs: Vec<String>)
    ensures
        logs.deep_view() == parse_spec(content@),
{
    let n = content.unicode_len();
    let mut logs: Vec<String> = Vec::new();
    let mut current: String = String::new();
    let mut first: bool = true;
    let mut pos: usize = 0;
    proof {
        assert(content@.skip(0) =~= content@);
        assert(logs.deep_view() =~= Seq::<Seq<char>>::empty());
        assert(logs.deep_view() + parse_rec(lines_of(content@.skip(0)), current@, first)
            =~= parse_rec(lines_of(content@), Seq::empty(), true));
    }
    while pos < n
        invariant
            pos <= n,
            n == content@.len(),
            logs.deep_view() + parse_rec(lines_of(content@.skip(pos as int)), current@, first)
                == parse_spec(content@),
        decreases n - pos,
    {
        let ghost sv = content@;
        let ghost tail = sv.skip(pos as int);
        let ghost logs0 = logs.deep_view();
        let ghost cur0 = current@;
        let ghost first0 = first;
        let mut q: usize = pos;
        while q < n && content.get_char(q) != '\n'
            invariant
                pos <= q <= n,
                n == content@.len(),
                forall|k: int| pos <= k < q ==> content@[k] != '\n',
            decreases n - q,
        {
            q += 1;
        }
        let line = content.substring_char(pos, q);
        let next_pos: usize = if q < n {
            q + 1
        } else {
            n
        };
        let ghost rest_ls = lines_of(sv.skip(next_pos as int));
        proof {
            assert forall|i: int| 0 <= i < (q - pos) implies tail[i] != '\n' by {
                assert(tail[i] == sv[pos + i]);
            }
            if (q as int) < (n as int) {
                assert(tail[q - pos] == sv[q as int]);
            }
            lemma_first_newline_is(tail, q - pos);
            if (q as int) < (n as int) {
                assert(tail.take(q - pos) =~= line@);
                assert(tail.skip(q - pos + 1) =~= sv.skip(next_pos as int));
                assert(lines_of(tail) == seq![line@] + rest_ls);
            } else {
                assert(tail =~= line@);
                assert(sv.skip(next_pos as int) =~= Seq::<char>::empty());
                assert(rest_ls =~= Seq::<Seq<char>>::empty());
                assert(lines_of(tail) == seq![tail]);
                assert(seq![tail] =~= seq![line@] + rest_ls);
            }
        }
        let is_hdr = starts_with_log(line);
        if is_hdr {
            if !first {
                let finished = current;
                if !str_all_space(finished.as_str()) {
                    logs.push(finished);
                    proof {
                        assert(logs.deep_view() =~= logs0 + seq![cur0]);
                    }
                }
                current = String::new();
            }
            first = false;
        }
        current.append(line);
        current.append("\n");
        pos = next_pos;
        proof {
            reveal_strlit("\n");
            let ls = seq![line@] + rest_ls;
            assert(ls[0] == line@);
            assert(ls.drop_first() =~= rest_ls);
            if is_hdr && !first0 {
                assert(current@ =~= line@ + seq!['\n']);
                let r = parse_rec(rest_ls, line@ + seq!['\n'], false);
                if all_space(cur0) {
                    assert(parse_rec(ls, cur0, first0) == r);
                    assert(logs.deep_view() == logs0);
                    assert(logs0 + r == parse_spec(sv));
                } else {
                    assert(parse_rec(ls, cur0, first0) == seq![cur0] + r);
                    assert(logs.deep_view() == logs0 + seq![cur0]);
                    assert((logs0 + seq![cur0]) + r =~= logs0 + (seq![cur0] + r));
                }
            } else {
                assert(current@ =~= (cur0 + line@) + seq!['\n']);
                if is_hdr {
                    assert(parse_rec(ls, cur0, first0) == parse_rec(
                        rest_ls,
                        cur0 + line@ + seq!['\n'],
                        false,
                    ));
                } else {
                    assert(parse_rec(ls, cur0, first0) == parse_rec(
                        rest_ls,
                        cur0 + line@ + seq!['\n'],
                        first0,
                    ));
                }
            }
            assert(logs.deep_view() + parse_rec(lines_of(sv.skip(pos as int)), current@, first)
                == parse_spec(sv));
        }
    }
    proof {
        assert(content@.skip(pos as int) =~= Seq::<char>::empty());
    }
    let ghost logs0 = logs.deep_view();
    let ghost cur0 = current@;
    if !str_all_space(current.as_str()) {
        logs.push(current);
        proof {
            assert(parse_rec(lines_of(Seq::<char>::empty()), cur0, first) == seq![cur0]);
            assert(logs.deep_view() =~= logs0 + seq![cur0]);
        }
    } else {
        proof {
            assert(parse_rec(lines_of(Seq::<char>::empty()), cur0, first)
                =~= Seq::<Seq<char>>::empty());
            assert(logs0 + Seq::<Seq<char>>::empty() =~= logs0);
        }
    }
    logs
}

/// A header line is never blank: its first character is `L`.
proof fn lemma_header_not_space(l: Seq<char>)
    requires
        is_header_line(l),
    ensures
        !all_space(l + seq!['\n']),
        !all_space(l),
{
    reveal_strlit("Log: ");
    assert(l.take(5)[0] == l[0]);
    assert(l[0] == 'L');
    assert((l + seq!['\n'])[0] == 'L');
    assert(!is_space('L'));
}

/// Once the accumulated block is not blank, no block is dropped and the parse
/// keeps every remaining character.
proof fn lemma_parse_rec_concat(ls: Seq<Seq<char>>, cur: Seq<char>, first: bool)
    requires
        !all_space(cur),
    ensures
        concat_all(parse_rec(ls, cur, first)) == cur + unlines(ls),
    decreases ls.len(),
{
    if ls.len() == 0 {
        assert(parse_rec(ls, cur, first) == seq![cur]);
        assert(concat_all(seq![cur]) == cur + concat_all(Seq::<Seq<char>>::empty())) by {
            assert(seq![cur].drop_first() =~= Seq::<Seq<char>>::empty());
        }
        assert(cur + Seq::<char>::empty() =~= cur);
        assert(cur + unlines(ls) =~= cur);
    } else {
        let l = ls[0];
        let rest = ls.drop_first();
        assert(unlines(ls) == l + seq!['\n'] + unlines(rest));
        if is_header_line(l) && !first {
            lemma_header_not_space(l);
            lemma_parse_rec_concat(rest, l + seq!['\n'], false);
            let r = parse_rec(rest, l + seq!['\n'], false);
            assert(parse_rec(ls, cur, first) == seq![cur] + r);
            assert(concat_all(seq![cur] + r) == cur + concat_all(r)) by {
                assert((seq![cur] + r)[0] == cur);
                assert((seq![cur] + r).drop_first() =~= r);
            }
            assert(cur + ((l + seq!['\n']) + unlines(rest)) =~= cur + unlines(ls));
        } else {
            let first1 = if is_header_line(l) {
                false
            } else {
                first
            };
            assert(!all_space(cur + l + seq!['\n'])) by {
                assert((cur + l + seq!['\n']).len() > cur.len());
                let w = choose|i: int| 0 <= i < cur.len() && !is_space(cur[i]);
                assert(!all_space(cur));
                assert(exists|i: int| 0 <= i < cur.len() && !is_space(#[trigger] cur[i]));
                assert((cur + l)[w] == cur[w]);
                assert((cur + l + seq!['\n'])[w] == (cur + l)[w]);
            }
            lemma_parse_rec_concat(rest, cur + l + seq!['\n'], first1);
            assert(parse_rec(ls, cur, first) == parse_rec(rest, cur + l + seq!['\n'], first1));
            assert((cur + l + seq!['\n']) + unlines(rest) =~= cur + unlines(ls));
        }
    }
}

/// Before any header has been seen, the same holds as long as the whole
/// remaining text is not blank.
proof fn lemma_parse_rec_concat_first(ls: Seq<Seq<char>>, cur: Seq<char>)
    requires
        !all_space(cur + unlines(ls)),
    ensures
        concat_all(parse_rec(ls, cur, true)) == cur + unlines(ls),
    decreases ls.len(),
{
    if ls.len() == 0 {
        assert(cur + unlines(ls) =~= cur);
        assert(!all_space(cur));
        lemma_parse_rec_concat(ls, cur, true);
    } else {
        let l = ls[0];
        let rest = ls.drop_first();
        assert(unlines(ls) == l + seq!['\n'] + unlines(rest));
        assert((cur + (l + seq!['\n'])) + unlines(rest) =~= cur + unlines(ls));
        if is_header_line(l) {
            lemma_header_not_space(l);
            assert(!all_space(cur + l + seq!['\n'])) by {
                assert((cur + l + seq!['\n'])[cur.len() as int] == 'L') by {
                    reveal_strlit("Log: ");
                    assert(l.take(5)[0] == l[0]);
                    assert((cur + l)[cur.len() as int] == l[0]);
                    assert((cur + l + seq!['\n'])[cur.len() as int] == (cur + l)[cur.len() as int]);
                }
                assert(!is_space('L'));
            }
            lemma_parse_rec_concat(rest, cur + l + seq!['\n'], false);
            assert(parse_rec(ls, cur, true) == parse_rec(rest, cur + l + seq!['\n'], false));
        } else {
            assert((cur + l + seq!['\n']) + unlines(rest) =~= cur + unlines(ls));
            assert(!all_space((cur + l + seq!['\n']) + unlines(rest)));
            lemma_parse_rec_concat_first(rest, cur + l + seq!['\n']);
            assert(parse_rec(ls, cur, true) == parse_rec(rest, cur + l + seq!['\n'], true));
        }
    }
}

/// Round-trip law: for content that is empty, or newline-terminated and not
/// entirely whitespace, concatenating the parsed entry blocks reproduces the
/// content exactly. (The blank separator line between entries stays attached
/// to the entry before it, so rejoining is plain concatenation.)
pub proof fn lemma_parse_round_trip(content: Seq<char>)
    requires
        content.len() == 0 || (content[content.len() - 1] == '\n' && !all_space(content)),
    ensures
        concat_all(parse_spec(content)) == content,
{
    if content.len() == 0 {
        assert(lines_of(content) =~= Seq::<Seq<char>>::empty());
        assert(all_space(Seq::<char>::empty()));
        assert(parse_spec(content) == Seq::<Seq<char>>::empty());
        assert(concat_all(Seq::<Seq<char>>::empty()) =~= content);
    } else {
        lemma_unlines_lines(content);
        assert(Seq::<char>::empty() + unlines(lines_of(content)) =~= content);
        lemma_parse_rec_concat_first(lines_of(content), Seq::empty());
    }
}

/// Idempotence law: parsing the concatenation of previously parsed entries
/// yields the same entries again.
pub proof fn lemma_parse_idempotent(content: Seq<char>)
    ensures
        parse_spec(concat_all(parse_spec(content))) == parse_spec(content),
{
    if all_space(content) {
        lemma_parse_blank(content);
        assert(concat_all(Seq::<Seq<char>>::empty()) == Seq::<char>::empty());
        assert(all_space(Seq::<char>::empty()));
        lemma_parse_blank(Seq::<char>::empty());
    } else {
        let ls = lines_of(content);
        let u = unlines(ls);
        crate::text::lemma_unlines_lines_general(content);
        assert(!all_space(u)) by {
            let w = choose|i: int| 0 <= i < content.len() && !is_space(#[trigger] content[i]);
            assert(exists|i: int|
                0 <= i < content.len() && !is_space(#[trigger] content[i]));
            if content[content.len() - 1] == '\n' {
                assert(u[w] == content[w]);
            } else {
                assert(u == content.push('\n'));
                assert(u[w] == content[w]);
            }
        }
        assert(Seq::<char>::empty() + u =~= u);
        lemma_parse_rec_concat_first(ls, Seq::empty());
        assert(concat_all(parse_spec(content)) == u);
        crate::text::lemma_lines_no_newline(content);
        crate::text::lemma_lines_unlines(ls);
        assert(parse_spec(u) == parse_rec(ls, Seq::empty(), true));
    }
}

/// Every line of a blank text is blank.
proof fn lemma_lines_all_space(s: Seq<char>)
    requires
        all_space(s),
    ensures
        forall|k: int| 0 <= k < lines_of(s).len() ==> all_space(#[trigger] lines_of(s)[k]),
    decreases s.len(),
{
    if s.len() != 0 {
        let j = first_newline(s);
        lemma_first_newline(s);
        if j < s.len() {
            let rest = s.skip(j + 1);
            assert(all_space(rest)) by {
                assert forall|i: int| 0 <= i < rest.len() implies is_space(#[trigger] rest[i]) by {
                    assert(rest[i] == s[j + 1 + i]);
                }
            }
            lemma_lines_all_space(rest);
            assert forall|k: int| 0 <= k < lines_of(s).len() implies all_space(
                #[trigger] lines_of(s)[k],
            ) by {
                if k == 0 {
                    assert(lines_of(s)[0] == s.take(j));
                    assert forall|i: int| 0 <= i < s.take(j).len() implies is_space(
                        #[trigger] s.take(j)[i],
                    ) by {
                        assert(s.take(j)[i] == s[i]);
                    }
                } else {
                    assert(lines_of(s)[k] == lines_of(rest)[k - 1]);
                }
            }
        }
    }
}

/// On blank lines the parse produces nothing.
proof fn lemma_parse_rec_blank(ls: Seq<Seq<char>>, cur: Seq<char>, first: bool)
    requires
        all_space(cur),
        forall|k: int| 0 <= k < ls.len() ==> all_space(#[trigger] ls[k]),
    ensures
        parse_rec(ls, cur, first) == Seq::<Seq<char>>::empty(),
    decreases ls.len(),
{
    if ls.len() != 0 {
        let l = ls[0];
        assert(all_space(l));
        assert(!is_header_line(l)) by {
            if is_header_line(l) {
                lemma_header_not_space(l);
            }
        }
        assert(all_space(cur + l + seq!['\n'])) by {
            lemma_all_space_add(cur, l);
            assert(all_space(seq!['\n'])) by {
                assert(is_space(seq!['\n'][0]));
            }
            lemma_all_space_add(cur + l, seq!['\n']);
        }
        assert forall|k: int| 0 <= k < ls.drop_first().len() implies all_space(
            #[trigger] ls.drop_first()[k],
        ) by {
            assert(ls.drop_first()[k] == ls[k + 1]);
        }
        lemma_parse_rec_blank(ls.drop_first(), cur + l + seq!['\n'], first);
    }
}

/// Law: blank content (empty, or whitespace only) parses to no entries at all.
pub proof fn lemma_parse_blank(content: Seq<char>)
    requires
        all_space(content),
    ensures
        parse_spec(content) == Seq::<Seq<char>>::empty(),
{
    lemma_lines_all_space(content);
    lemma_parse_rec_blank(lines_of(content), Seq::empty(), true);
}

} // verus!
