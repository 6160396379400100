//! Composing a fresh entry from a name, a date line and the five section
//! bodies, exactly as the entry is appended to the log file.

use vstd::prelude::*;

verus! {

/// The five section titles, in the order they are prompted and written.
pub open spec fn section_titles() -> Seq<Seq<char>> {
    seq![
        "Goals for the Week"@,
        "Progress"@,
        "Challenges"@,
        "Feedback from Mentor"@,
        "Next Steps"@,
    ]
}

/// Body lines as bullet lines: `- ` before each, `'\n'` after.
pub open spec fn bullets_spec(lines: Seq<Seq<char>>) -> Seq<char>
    decreases lines.len(),
{
    if lines.len() == 0 {
        Seq::empty()
    } else {
        "- "@ + lines[0] + seq!['\n'] + bullets_spec(lines.drop_first())
    }
}

proof fn lemma_bullets_push(lines: Seq<Seq<char>>, x: Seq<char>)
    ensures
        bullets_spec(lines.push(x)) == bullets_spec(lines) + ("- "@ + x + seq!['\n']),
    decreases lines.len(),
{
    if lines.len() == 0 {
        assert(lines.push(x)[0] == x);
        assert(lines.push(x).drop_first() =~= Seq::<Seq<char>>::empty());
        assert(bullets_spec(Seq::<Seq<char>>::empty()) == Seq::<char>::empty());
        assert(bullets_spec(lines.push(x)) == "- "@ + x + seq!['\n'] + Seq::<char>::empty());
        assert("- "@ + x + seq!['\n'] + Seq::<char>::empty() =~= Seq::<char>::empty() + ("- "@ + x
            + seq!['\n']));
    } else {
        lemma_bullets_push(lines.drop_first(), x);
        assert(lines.push(x)[0] == lines[0]);
        assert(lines.push(x).drop_first() =~= lines.drop_first().push(x));
        assert("- "@ + lines[0] + seq!['\n'] + (bullets_spec(lines.drop_first()) + ("- "@ + x
            + seq!['\n'])) =~= ("- "@ + lines[0] + seq!['\n'] + bullets_spec(lines.drop_first()))
            + ("- "@ + x + seq!['\n']));
    }
}

/// One section block: the title line with its colon, the bullets, then the
/// blank line that closes the block.
pub open spec fn section_block_spec(title: Seq<char>, lines: Seq<Seq<char>>) -> Seq<char> {
    title + ":\n"@ + bullets_spec(lines) + seq!['\n']
}

/// The five section blocks, in title order.
pub open spec fn sections_spec(titles: Seq<Seq<char>>, secs: Seq<Seq<Seq<char>>>) -> Seq<char>
    decreases titles.len(),
{
    if titles.len() == 0 || secs.len() == 0 {
        Seq::empty()
    } else {
        section_block_spec(titles[0], secs[0]) + sections_spec(
            titles.drop_first(),
            secs.drop_first(),
        )
    }
}

/// A complete new entry: a leading blank line, the header line, the date
/// line, then the five section blocks.
pub open spec fn compose_spec(name: Seq<char>, date: Seq<char>, secs: Seq<Seq<Seq<char>>>) -> Seq<
    char,
> {
    "\nLog: "@ + name + "\nDate: "@ + date + seq!['\n'] + sections_spec(section_titles(), secs)
}

/// The titles as owned strings, for walking them at run time.
fn section_titles_exec() -> (r: Vec<String>)
    ensures
        r.deep_view() == section_titles(),
{
    let mut v: Vec<String> = Vec::new();
    v.push(String::from_str("Goals for the Week"));
    v.push(String::from_str("Progress"));
    v.push(String::from_str("Challenges"));
    v.push(String::from_str("Feedback from Mentor"));
    v.push(String::from_str("Next Steps"));
    proof {
        assert(v.deep_view() =~= section_titles());
    }
    v
}

/// Builds a new entry's text, as [`compose_spec`] describes. Each inner
/// vector holds the already-cleaned body lines of one section, in the order
/// of [`section_titles`].
pub fn compose_entry(name: &str, date: &str, sections: &Vec<Vec<String>>) -> (r: String)
    requires
        sections@.len() == 5,
    ensures
        r@ == compose_spec(name@, date@, sections.deep_view()),
{
    let ghost secs = sections.deep_view();
    let titles = section_titles_exec();
    let mut out = String::new();
    out.append("\nLog: ");
    out.append(name);
    out.append("\nDate: ");
    out.append(date);
    out.append("\n");
    let ghost head = "\nLog: "@ + name@ + "\nDate: "@ + date@ + seq!['\n'];
    proof {
        reveal_strlit("\n");
        assert(out@ =~= head);
        assert(section_titles().skip(0) =~= section_titles());
        assert(secs.skip(0) =~= secs);
    }
    let mut i: usize = 0;
    while i < 5
        invariant
            0 <= i <= 5,
            sections@.len() == 5,
            secs == sections.deep_view(),
            titles.deep_view() == section_titles(),
            titles@.len() == 5,
            out@ + sections_spec(section_titles().skip(i as int), secs.skip(i as int)) == head
                + sections_spec(section_titles(), secs),
        decreases 5 - i,
    {
        let ghost out0 = out@;
        let ghost ts = section_titles().skip(i as int);
        let ghost ss = secs.skip(i as int);
        proof {
            assert(ts[0] == section_titles()[i as int]);
            assert(ss[0] == secs[i as int]);
            assert(ts.drop_first() =~= section_titles().skip(i + 1));
            assert(ss.drop_first() =~= secs.skip(i + 1));
            assert(sections_spec(ts, ss) == section_block_spec(ts[0], ss[0]) + sections_spec(
                section_titles().skip(i + 1),
                secs.skip(i + 1),
            ));
        }
        let title = &titles[i];
        proof {
            assert(title@ == section_titles()[i as int]);
        }
        out.append(title.as_str());
        out.append(":\n");
        let ghost mid0 = out@;
        let lines = &sections[i];
        proof {
            assert(lines.deep_view() == secs[i as int]);
            assert(lines.deep_view().take(0) =~= Seq::<Seq<char>>::empty());
            assert(out@ + bullets_spec(lines.deep_view().take(0)) =~= out@);
        }
        let mut j: usize = 0;
        while j < lines.len()
            invariant
                0 <= j <= lines.len(),
                lines.deep_view() == secs.skip(i as int)[0],
                out@ == mid0 + bullets_spec(lines.deep_view().take(j as int)),
            decreases lines.len() - j,
        {
            let line = &lines[j];
            out.append("- ");
            out.append(line.as_str());
            out.append("\n");
            proof {
                reveal_strlit("\n");
                assert(line@ == lines.deep_view()[j as int]);
                assert(lines.deep_view().take(j + 1) =~= lines.deep_view().take(j as int).push(
                    lines.deep_view()[j as int],
                ));
                lemma_bullets_push(lines.deep_view().take(j as int), lines.deep_view()[j as int]);
                assert(out@ =~= mid0 + bullets_spec(lines.deep_view().take(j + 1)));
            }
            j += 1;
        }
        out.append("\n");
        proof {
            reveal_strlit("\n");
            assert(lines.deep_view().take(lines@.len() as int) =~= lines.deep_view());
            assert(out@ =~= out0 + section_block_spec(ts[0], ss[0]));
            assert(out0 + section_block_spec(ts[0], ss[0]) + sections_spec(
                section_titles().skip(i + 1),
                secs.skip(i + 1),
            ) =~= out0 + (section_block_spec(ts[0], ss[0]) + sections_spec(
                section_titles().skip(i + 1),
                secs.skip(i + 1),
            )));
        }
        i += 1;
    }
    proof {
        assert(section_titles().skip(5) =~= Seq::<Seq<char>>::empty());
        assert(sections_spec(Seq::<Seq<char>>::empty(), secs.skip(5)) == Seq::<char>::empty());
        assert(out@ + Seq::<char>::empty() =~= out@);
    }
    out
}

/// Relies on `chrono::Local::now` and chrono's `format`: the current local
/// time, written as `YYYY-MM-DD HH:MM:SS`.
#[verifier::external_body]
fn current_date_string() -> String {
    chrono::Local::now().format("%Y-%m-%d %H:%M:%S").to_string()
}

/// A new entry stamped with the current local time: [`compose_spec`] with a
/// date line the clock chose.
pub fn compose_entry_now(name: &str, sections: &Vec<Vec<String>>) -> (r: String)
    requires
        sections@.len() == 5,
    ensures
        exists|date: Seq<char>| r@ == compose_spec(name@, date, sections.deep_view()),
{
    let date = current_date_string();
    let r = compose_entry(name, date.as_str(), sections);
    proof {
        assert(r@ == compose_spec(name@, date@, sections.deep_view()));
    }
    r
}

/// The sentinel that ends an interactive body: the line `END`, in any letter
/// case.
pub open spec fn is_end_spec(s: Seq<char>) -> bool {
    s.len() == 3 && (s[0] == 'E' || s[0] == 'e') && (s[1] == 'N' || s[1] == 'n') && (s[2] == 'D'
        || s[2] == 'd')
}

/// Exec test for [`is_end_spec`].
pub fn is_end_marker(line: &str) -> (b: bool)
    ensures
        b == is_end_spec(line@),
{
    if line.unicode_len() != 3 {
        return false;
    }
    let c0 = line.get_char(0);
    let c1 = line.get_char(1);
    let c2 = line.get_char(2);
    (c0 == 'E' || c0 == 'e') && (c1 == 'N' || c1 == 'n') && (c2 == 'D' || c2 == 'd')
}

} // verus!
