//! The decisions behind each command: validating a selection, rewriting the
//! chosen entry, removing an entry, restoring from a backup snapshot. All of
//! it is pure text work; reading and writing the files stays with the caller.

use vstd::prelude::*;

use vstd::pervasive::VecAdditionalExecFns;

use crate::editor::{header_for, update_section, update_section_spec};
use crate::parser::{parse_logs, parse_spec};
use crate::text::{all_space, str_all_space};

verus! {

/// Why a command did not run: no logs on file, a selection out of range, an
/// unknown section keyword, or no backup to restore from.
#[derive(Clone, Copy, Debug, PartialEq, Eq, Structural)]
pub enum LogError {
    NoLogs,
    InvalidIndex,
    InvalidSection,
    NoBackup,
}

/// Entries joined with a single `'\n'` between them: since every entry block
/// ends with a newline of its own, the joint shows as one blank line.
pub open spec fn join_spec(ls: Seq<Seq<char>>) -> Seq<char>
    decreases ls.len(),
{
    if ls.len() == 0 {
        Seq::empty()
    } else if ls.len() == 1 {
        ls[0]
    } else {
        ls[0] + seq!['\n'] + join_spec(ls.drop_first())
    }
}

/// Appending one more entry to a join.
proof fn lemma_join_push(ls: Seq<Seq<char>>, x: Seq<char>)
    ensures
        join_spec(ls.push(x)) == if ls.len() == 0 {
            x
        } else {
            join_spec(ls) + seq!['\n'] + x
        },
    decreases ls.len(),
{
    if ls.len() == 0 {
        assert(ls.push(x)[0] == x);
        assert(ls.push(x).len() == 1);
    } else {
        lemma_join_push(ls.drop_first(), x);
        assert(ls.push(x).drop_first() =~= ls.drop_first().push(x));
        assert(ls.push(x)[0] == ls[0]);
        if ls.len() == 1 {
            assert(join_spec(ls.push(x)) == ls[0] + seq!['\n'] + join_spec(
                ls.drop_first().push(x),
            ));
            assert(join_spec(ls.drop_first().push(x)) == x);
        } else {
            assert(join_spec(ls) == ls[0] + seq!['\n'] + join_spec(ls.drop_first()));
            assert(ls[0] + seq!['\n'] + (join_spec(ls.drop_first()) + seq!['\n'] + x) =~= (ls[0]
                + seq!['\n'] + join_spec(ls.drop_first())) + seq!['\n'] + x);
        }
    }
}

/// Joins the entries with a `'\n'` separator, as [`join_spec`] describes.
pub fn join_logs(logs: &Vec<String>) -> (r: String)
    ensures
        r@ == join_spec(logs.deep_view()),
{
    let ghost dv = logs.deep_view();
    let mut out = String::new();
    let mut i: usize = 0;
    proof {
        assert(dv.take(0) =~= Seq::<Seq<char>>::empty());
    }
    while i < logs.len()
        invariant
            0 <= i <= logs.len(),
            dv == logs.deep_view(),
            out@ == join_spec(dv.take(i as int)),
        decreases logs.len() - i,
    {
        if i > 0 {
            out.append("\n");
            proof {
                reveal_strlit("\n");
            }
        }
        let entry = &logs[i];
        out.append(entry.as_str());
        proof {
            assert(entry@ == dv[i as int]);
            assert(dv.take(i + 1) =~= dv.take(i as int).push(dv[i as int]));
            lemma_join_push(dv.take(i as int), dv[i as int]);
            reveal_strlit("\n");
            assert("\n"@ =~= seq!['\n']);
        }
        i += 1;
    }
    proof {
        assert(dv.take(logs.len() as int) =~= dv);
    }
    out
}

/// The whole edit pipeline on the file content: split into entries, check the
/// selection, rewrite the chosen entry's section, and rejoin. Errors come in
/// the order the command checks them: blank content, then the index, then the
/// section keyword.
pub fn edit_content(content: &str, index: usize, section: &str, new_body: &str) -> (r: Result<
    String,
    LogError,
>)
    ensures
        ({
            let es = parse_spec(content@);
            &&& all_space(content@) ==> r == Err::<String, LogError>(LogError::NoLogs)
            &&& (!all_space(content@) && !(1 <= index <= es.len())) ==> r == Err::<
                String,
                LogError,
            >(LogError::InvalidIndex)
            &&& (!all_space(content@) && 1 <= index <= es.len() && header_for(section@) is None)
                ==> r == Err::<String, LogError>(LogError::InvalidSection)
            &&& (!all_space(content@) && 1 <= index <= es.len() && header_for(section@) is Some)
                ==> r is Ok && r->Ok_0@ == join_spec(
                es.update(index - 1, update_section_spec(es[index - 1], section@, new_body@)),
            )
        }),
{
    if str_all_space(content) {
        return Err(LogError::NoLogs);
    }
    let mut logs = parse_logs(content);
    if index < 1 || index > logs.len() {
        return Err(LogError::InvalidIndex);
    }
    let known = match crate::editor::section_header_of(section) {
        Option::Some(_) => true,
        Option::None => false,
    };
    if !known {
        return Err(LogError::InvalidSection);
    }
    let ghost es = parse_spec(content@);
    let target = &logs[index - 1];
    proof {
        assert(target@ == es[index - 1]);
    }
    let updated = update_section(target.as_str(), section, new_body);
    logs.set(index - 1, updated);
    proof {
        assert(logs.deep_view() =~= es.update(
            index - 1,
            update_section_spec(es[index - 1], section@, new_body@),
        ));
    }
    Ok(join_logs(&logs))
}

/// The whole delete pipeline on the file content: split into entries, check
/// the selection, drop the chosen entry, and rejoin. The caller writes the
/// old content to the backup slot before storing the result.
pub fn delete_content(content: &str, index: usize) -> (r: Result<String, LogError>)
    ensures
        ({
            let es = parse_spec(content@);
            &&& all_space(content@) ==> r == Err::<String, LogError>(LogError::NoLogs)
            &&& (!all_space(content@) && !(1 <= index <= es.len())) ==> r == Err::<
                String,
                LogError,
            >(LogError::InvalidIndex)
            &&& (!all_space(content@) && 1 <= index <= es.len()) ==> r is Ok && r->Ok_0@
                == join_spec(es.remove(index - 1))
        }),
{
    if str_all_space(content) {
        return Err(LogError::NoLogs);
    }
    let mut logs = parse_logs(content);
    if index < 1 || index > logs.len() {
        return Err(LogError::InvalidIndex);
    }
    let ghost es = parse_spec(content@);
    logs.remove(index - 1);
    proof {
        assert(logs.deep_view() =~= es.remove(index - 1));
    }
    Ok(join_logs(&logs))
}

/// The restore decision: with a backup snapshot in hand the log file becomes
/// exactly that snapshot; without one the command reports [`LogError::NoBackup`]
/// and nothing is written.
pub fn restore_content(backup: Option<String>) -> (r: Result<String, LogError>)
    ensures
        backup is Some ==> r is Ok && r->Ok_0@ == backup->0@,
        backup is None ==> r == Err::<String, LogError>(LogError::NoBackup),
{
    match backup {
        Option::Some(s) => Ok(s),
        Option::None => Err(LogError::NoBackup),
    }
}

} // verus!
