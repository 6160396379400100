//! Rewriting one named section inside a single entry's text.
//!
//! The editor walks the entry line by line. At the line whose trimmed text
//! equals the section header it emits the header and the new body, then skips
//! the old body lines until a blank line or a line that opens with an
//! uppercase letter (the boundary heuristic); that boundary line and
//! everything after it are copied verbatim. A section that never appears is
//! appended at the end behind a blank separator line.

use vstd::prelude::*;

use crate::text::{
    all_space, lines_of, starts_upper, str_all_space, str_eq, str_starts_upper, str_trim,
    trim_spec, unlines,
};

verus! {

/// A line that ends the section being replaced: blank, or opening with an
/// uppercase letter.
pub open spec fn boundary_line(l: Seq<char>) -> bool {
    all_space(l) || starts_upper(l)
}

/// The rewrite, one line at a time; yields the rewritten text and whether the
/// header was seen. `inside` holds while old body lines are being skipped.
pub open spec fn update_rec(
    ls: Seq<Seq<char>>,
    header: Seq<char>,
    body: Seq<char>,
    inside: bool,
) -> (Seq<char>, bool)
    decreases ls.len(),
{
    if ls.len() == 0 {
        (Seq::empty(), false)
    } else {
        let l = ls[0];
        if trim_spec(l) == header {
            let r = update_rec(ls.drop_first(), header, body, true);
            (header + seq!['\n'] + body + r.0, true)
        } else if inside && boundary_line(l) {
            let r = update_rec(ls.drop_first(), header, body, false);
            (l + seq!['\n'] + r.0, r.1)
        } else if !inside {
            let r = update_rec(ls.drop_first(), header, body, false);
            (l + seq!['\n'] + r.0, r.1)
        } else {
            update_rec(ls.drop_first(), header, body, true)
        }
    }
}

/// One entry's text with the section under `header` replaced by `body`; a
/// missing section is appended behind a blank separator line.
pub open spec fn update_entry_spec(entry: Seq<char>, header: Seq<char>, body: Seq<char>) -> Seq<
    char,
> {
    let r = update_rec(lines_of(entry), header, body, false);
    if r.1 {
        r.0
    } else {
        r.0 + seq!['\n'] + header + seq!['\n'] + body
    }
}

/// The section header (with its colon) that a lowercase keyword selects.
pub open spec fn header_for(section: Seq<char>) -> Option<Seq<char>> {
    if section == "goals"@ {
        Option::Some("Goals for the Week:"@)
    } else if section == "progress"@ {
        Option::Some("Progress:"@)
    } else if section == "challenges"@ {
        Option::Some("Challenges:"@)
    } else if section == "feedback"@ {
        Option::Some("Feedback from Mentor:"@)
    } else if section == "next steps"@ {
        Option::Some("Next Steps:"@)
    } else {
        Option::None
    }
}

/// What `update_section` returns: an unrecognized keyword leaves the entry as
/// it stands.
pub open spec fn update_section_spec(log: Seq<char>, section: Seq<char>, body: Seq<char>) -> Seq<
    char,
> {
    match header_for(section) {
        Option::Some(h) => update_entry_spec(log, h, body),
        Option::None => log,
    }
}

/// Exec form of [`header_for`].
pub fn section_header_of(section: &str) -> (r: Option<String>)
    ensures
        r is Some <==> header_for(section@) is Some,
        r is Some ==> r->0@ == header_for(section@)->0,
{
    if str_eq(section, "goals") {
        Option::Some(String::from_str("Goals for the Week:"))
    } else if str_eq(section, "progress") {
        Option::Some(String::from_str("Progress:"))
    } else if str_eq(section, "challenges") {
        Option::Some(String::from_str("Challenges:"))
    } else if str_eq(section, "feedback") {
        Option::Some(String::from_str("Feedback from Mentor:"))
    } else if str_eq(section, "next steps") {
        Option::Some(String::from_str("Next Steps:"))
    } else {
        Option::None
    }
}

/// Replaces the named section of one entry, as [`update_section_spec`]
/// describes.
pub fn update_section(log: &str, section: &str, new_content: &str) -> (r: String)
    ensures
        r@ == update_section_spec(log@, section@, new_content@),
{
    let header = match section_header_of(section) {
        Option::Some(h) => h,
        Option::None => {
            return String::from_str(log);
        },
    };
    let ghost h = header@;
    let ghost b = new_content@;
    let ghost all_ls = lines_of(log@);
    let n = log.unicode_len();
    let mut out = String::new();
    let mut inside: bool = false;
    let mut found: bool = false;
    let mut pos: usize = 0;
    proof {
        assert(log@.skip(0) =~= log@);
        assert(out@ + update_rec(all_ls, h, b, false).0 =~= update_rec(all_ls, h, b, false).0);
    }
    while pos < n
        invariant
            pos <= n,
            n == log@.len(),
            h == header@,
            b == new_content@,
            all_ls == lines_of(log@),
            out@ + update_rec(lines_of(log@.skip(pos as int)), h, b, inside).0 == update_rec(
                all_ls,
                h,
                b,
                false,
            ).0,
            update_rec(all_ls, h, b, false).1 == (found || update_rec(
                lines_of(log@.skip(pos as int)),
                h,
                b,
                inside,
            ).1),
        decreases n - pos,
    {
        let ghost sv = log@;
        let ghost tail = sv.skip(pos as int);
        let ghost out0 = out@;
        let ghost inside0 = inside;
        let mut q: usize = pos;
        while q < n && log.get_char(q) != '\n'
            invariant
                pos <= q <= n,
                n == log@.len(),
                forall|k: int| pos <= k < q ==> log@[k] != '\n',
            decreases n - q,
        {
            q += 1;
        }
        let line = log.substring_char(pos, q);
        let next_pos: usize = if q < n {
            q + 1
        } else {
            n
        };
        let ghost rest_ls = lines_of(sv.skip(next_pos as int));
        proof {
            assert forall|i: int| 0 <= i < (q - pos) implies tail[i] != '\n' by {
                assert(tail[i] == sv[pos + i]);
            }
            if (q as int) < (n as int) {
                assert(tail[q - pos] == sv[q as int]);
            }
            crate::text::lemma_first_newline_is(tail, q - pos);
            if (q as int) < (n as int) {
                assert(tail.take(q - pos) =~= line@);
                assert(tail.skip(q - pos + 1) =~= sv.skip(next_pos as int));
                assert(lines_of(tail) == seq![line@] + rest_ls);
            } else {
                assert(tail =~= line@);
                assert(sv.skip(next_pos as int) =~= Seq::<char>::empty());
                assert(rest_ls =~= Seq::<Seq<char>>::empty());
                assert(lines_of(tail) == seq![tail]);
                assert(seq![tail] =~= seq![line@] + rest_ls);
            }
            assert((seq![line@] + rest_ls)[0] == line@);
            assert((seq![line@] + rest_ls).drop_first() =~= rest_ls);
        }
        let trimmed = str_trim(line);
        if str_eq(trimmed, header.as_str()) {
            out.append(header.as_str());
            out.append("\n");
            out.append(new_content);
            inside = true;
            found = true;
            proof {
                reveal_strlit("\n");
                assert(out@ =~= out0 + (h + seq!['\n'] + b));
            }
        } else if inside && (str_all_space(line) || str_starts_upper(line)) {
            inside = false;
            out.append(line);
            out.append("\n");
            proof {
                reveal_strlit("\n");
                assert(out@ =~= out0 + (line@ + seq!['\n']));
            }
        } else if !inside {
            out.append(line);
            out.append("\n");
            proof {
                reveal_strlit("\n");
                assert(out@ =~= out0 + (line@ + seq!['\n']));
            }
        }
        pos = next_pos;
        proof {
            let ls = seq![line@] + rest_ls;
            let r_old = update_rec(ls, h, b, inside0);
            let r_new = update_rec(rest_ls, h, b, inside);
            if trim_spec(line@) == h {
                assert(r_old.0 == h + seq!['\n'] + b + r_new.0);
                assert(out0 + (h + seq!['\n'] + b) + r_new.0 =~= out0 + (h + seq!['\n'] + b
                    + r_new.0));
            } else if inside0 && boundary_line(line@) {
                assert(r_old.0 == line@ + seq!['\n'] + r_new.0);
                assert(out0 + (line@ + seq!['\n']) + r_new.0 =~= out0 + (line@ + seq!['\n']
                    + r_new.0));
            } else if !inside0 {
                assert(r_old.0 == line@ + seq!['\n'] + r_new.0);
                assert(out0 + (line@ + seq!['\n']) + r_new.0 =~= out0 + (line@ + seq!['\n']
                    + r_new.0));
            } else {
                assert(r_old == r_new);
            }
        }
    }
    proof {
        assert(log@.skip(pos as int) =~= Seq::<char>::empty());
        assert(update_rec(lines_of(Seq::<char>::empty()), h, b, inside)
            == (Seq::<char>::empty(), false));
        assert(out@ + Seq::<char>::empty() =~= out@);
    }
    if !found {
        out.append("\n");
        out.append(header.as_str());
        out.append("\n");
        out.append(new_content);
        proof {
            reveal_strlit("\n");
            let r = update_rec(all_ls, h, b, false);
            assert(out@ =~= r.0 + seq!['\n'] + h + seq!['\n'] + b);
        }
    }
    out
}

/// With no matching line ahead and the cursor outside the section, every line
/// is copied and the header is never found.
proof fn lemma_update_rec_not_found(ls: Seq<Seq<char>>, header: Seq<char>, body: Seq<char>)
    requires
        forall|k: int| 0 <= k < ls.len() ==> trim_spec(#[trigger] ls[k]) != header,
    ensures
        update_rec(ls, header, body, false) == (unlines(ls), false),
    decreases ls.len(),
{
    if ls.len() != 0 {
        assert forall|k: int| 0 <= k < ls.drop_first().len() implies trim_spec(
            #[trigger] ls.drop_first()[k],
        ) != header by {
            assert(ls.drop_first()[k] == ls[k + 1]);
        }
        lemma_update_rec_not_found(ls.drop_first(), header, body);
        assert(trim_spec(ls[0]) != header);
        assert(update_rec(ls, header, body, false) == (
            ls[0] + seq!['\n'] + unlines(ls.drop_first()),
            false,
        ));
    }
}

/// Law: editing a section that an entry does not yet contain appends it at
/// the end, behind a blank separator line; everything the entry already held
/// stands unchanged, byte for byte.
pub proof fn lemma_edit_appends_missing_section(
    entry: Seq<char>,
    header: Seq<char>,
    body: Seq<char>,
)
    requires
        forall|k: int|
            0 <= k < lines_of(entry).len() ==> trim_spec(#[trigger] lines_of(entry)[k]) != header,
        entry.len() == 0 || entry[entry.len() - 1] == '\n',
    ensures
        update_entry_spec(entry, header, body) == entry + seq!['\n'] + header + seq!['\n'] + body,
{
    lemma_update_rec_not_found(lines_of(entry), header, body);
    crate::text::lemma_unlines_lines(entry);
}

/// Copying phase: lines before the section pass through untouched.
proof fn lemma_update_rec_pre(
    pre: Seq<Seq<char>>,
    rest: Seq<Seq<char>>,
    header: Seq<char>,
    body: Seq<char>,
)
    requires
        forall|k: int| 0 <= k < pre.len() ==> trim_spec(#[trigger] pre[k]) != header,
    ensures
        update_rec(pre + rest, header, body, false).0 == unlines(pre) + update_rec(
            rest,
            header,
            body,
            false,
        ).0,
        update_rec(pre + rest, header, body, false).1 == update_rec(rest, header, body, false).1,
    decreases pre.len(),
{
    if pre.len() == 0 {
        assert(pre + rest =~= rest);
        assert(Seq::<char>::empty() + update_rec(rest, header, body, false).0 =~= update_rec(
            rest,
            header,
            body,
            false,
        ).0);
    } else {
        let l = pre[0];
        assert((pre + rest)[0] == l);
        assert((pre + rest).drop_first() =~= pre.drop_first() + rest);
        assert forall|k: int| 0 <= k < pre.drop_first().len() implies trim_spec(
            #[trigger] pre.drop_first()[k],
        ) != header by {
            assert(pre.drop_first()[k] == pre[k + 1]);
        }
        lemma_update_rec_pre(pre.drop_first(), rest, header, body);
        let tail = update_rec(pre.drop_first() + rest, header, body, false);
        assert(update_rec(pre + rest, header, body, false).0 == l + seq!['\n'] + tail.0);
        assert(l + seq!['\n'] + (unlines(pre.drop_first()) + update_rec(rest, header, body, false).0)
            =~= (l + seq!['\n'] + unlines(pre.drop_first())) + update_rec(
            rest,
            header,
            body,
            false,
        ).0);
    }
}

/// Skipping phase: the old body lines vanish from the output.
proof fn lemma_update_rec_skip(
    old_body: Seq<Seq<char>>,
    rest: Seq<Seq<char>>,
    header: Seq<char>,
    body: Seq<char>,
)
    requires
        forall|k: int|
            0 <= k < old_body.len() ==> trim_spec(#[trigger] old_body[k]) != header
                && !boundary_line(old_body[k]),
    ensures
        update_rec(old_body + rest, header, body, true) == update_rec(rest, header, body, true),
    decreases old_body.len(),
{
    if old_body.len() == 0 {
        assert(old_body + rest =~= rest);
    } else {
        assert((old_body + rest)[0] == old_body[0]);
        assert((old_body + rest).drop_first() =~= old_body.drop_first() + rest);
        assert forall|k: int| 0 <= k < old_body.drop_first().len() implies trim_spec(
            #[trigger] old_body.drop_first()[k],
        ) != header && !boundary_line(old_body.drop_first()[k]) by {
            assert(old_body.drop_first()[k] == old_body[k + 1]);
        }
        lemma_update_rec_skip(old_body.drop_first(), rest, header, body);
    }
}

/// Law: editing a section that an entry does contain replaces exactly its
/// body and nothing else. The entry's lines are taken apart as the lines
/// before the header (none matching it), the header line itself, the old body
/// lines (none of them a boundary), and the rest, opening with a boundary
/// line: the rewrite keeps the lines around the section byte for byte and
/// puts the new body where the old one stood.
pub proof fn lemma_edit_replaces_section(
    entry: Seq<char>,
    pre: Seq<Seq<char>>,
    hline: Seq<char>,
    old_body: Seq<Seq<char>>,
    post: Seq<Seq<char>>,
    header: Seq<char>,
    body: Seq<char>,
)
    requires
        lines_of(entry) == pre + seq![hline] + old_body + post,
        trim_spec(hline) == header,
        forall|k: int| 0 <= k < pre.len() ==> trim_spec(#[trigger] pre[k]) != header,
        forall|k: int|
            0 <= k < old_body.len() ==> trim_spec(#[trigger] old_body[k]) != header
                && !boundary_line(old_body[k]),
        forall|k: int| 0 <= k < post.len() ==> trim_spec(#[trigger] post[k]) != header,
        post.len() > 0 ==> boundary_line(post[0]),
    ensures
        update_entry_spec(entry, header, body) == unlines(pre) + header + seq!['\n'] + body
            + unlines(post),
{
    let mid = seq![hline] + old_body + post;
    assert(pre + seq![hline] + old_body + post =~= pre + mid);
    lemma_update_rec_pre(pre, mid, header, body);
    assert(mid[0] == hline);
    assert(mid.drop_first() =~= old_body + post);
    let y = update_rec(old_body + post, header, body, true);
    assert(update_rec(mid, header, body, false) == (header + seq!['\n'] + body + y.0, true));
    lemma_update_rec_skip(old_body, post, header, body);
    assert(y == update_rec(post, header, body, true));
    if post.len() == 0 {
        assert(y == (Seq::<char>::empty(), false));
        assert(unlines(post) == Seq::<char>::empty());
    } else {
        assert(post[0] + seq!['\n'] + unlines(post.drop_first()) == unlines(post));
        assert forall|k: int| 0 <= k < post.drop_first().len() implies trim_spec(
            #[trigger] post.drop_first()[k],
        ) != header by {
            assert(post.drop_first()[k] == post[k + 1]);
        }
        lemma_update_rec_not_found(post.drop_first(), header, body);
        assert(y == (post[0] + seq!['\n'] + unlines(post.drop_first()), false));
    }
    assert(y.0 == unlines(post));
    let r = update_rec(lines_of(entry), header, body, false);
    assert(r.1);
    assert(r.0 == unlines(pre) + (header + seq!['\n'] + body + unlines(post)));
    assert(unlines(pre) + (header + seq!['\n'] + body + unlines(post)) =~= unlines(pre) + header
        + seq!['\n'] + body + unlines(post));
}

} // verus!
