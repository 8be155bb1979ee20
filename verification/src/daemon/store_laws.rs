//! What the stores of automations and runs keep, and what variants are made of.
use vstd::prelude::*;

use crate::daemon::automation::Automation;
use crate::daemon::automation_executor::DaemonErrorV;
use crate::daemon::automation_runs::{Run, RunStatus, is_safe, kept_name, lists_runs, run_key, safe_name};
use crate::daemon::automation_store::{AutomationFolder, StoreErrorV, above, by_ids, by_paths, create_error,
    filing_error, folders_for, lifted, name_after, parent_of, path_error, pruned, refiled, relocated, rename_error, repath,
    repath_opt, slash_before, under, with_folder};
use crate::daemon::variants::{ActionV, AdoptPhaseV, AdoptionV, CommandResult, PhaseV, SetupV, branch_of,
    exclude_script, indices_in, not_added, removal, removals, variant_agent, variant_in, variant_run, variants_dir,
    worktree_of, worktrees_in};
use crate::isolation::session_sandbox::ExecResult;
use crate::llm::provider::opt_view;
use crate::table::{Ranked, has_value, sorted};
use crate::text::{before, contains, decimal, lines, parse_number, split, starts_with, strip, trim};
use crate::text_laws::{free_of, law_parts_are_found};

verus! {

// ---------------------------------------------------------------------------
// Folders
// ---------------------------------------------------------------------------

/// The error names what it is about, and says what is wrong with it.
pub proof fn law_store_errors_name_their_subject(s: Seq<char>)
    ensures
        StoreErrorV::NotFound(s).message() == "automation '"@ + s + "' not found"@,
        StoreErrorV::Conflict(s).message() == "automation '"@ + s + "' already exists"@,
        StoreErrorV::FolderNotFound(s).message() == "folder '"@ + s + "' not found"@,
        StoreErrorV::FolderConflict(s).message() == "folder '"@ + s + "' already exists"@,
        StoreErrorV::InvalidFolderPath(s).message() == "invalid folder path: "@ + s,
{
}

/// The part can stand in a path.
pub open spec fn good_part(p: Seq<char>) -> bool {
    p.len() > 0 && p != "."@ && p != ".."@ && !p.contains('\\')
}

proof fn lemma_part_error(path: Seq<char>, parts: Seq<Seq<char>>, i: int)
    requires
        0 <= i,
    ensures
        crate::daemon::automation_store::part_error(path, parts, i) is None <==> forall|k: int|
            i <= k < parts.len() ==> good_part(#[trigger] parts[k]),
        crate::daemon::automation_store::part_error(path, parts, i) matches Some(m) ==> contains(m, path),
    decreases parts.len() - i,
{
    law_parts_are_found("bad segment in '"@, path, "'"@);
    law_parts_are_found("backslash in '"@, path, "'"@);
    if i < parts.len() {
        lemma_part_error(path, parts, i + 1);
    }
}

/// A path is one that a folder may have exactly where it neither begins nor ends
/// with a slash, and no part of it is empty, stands for a directory or its parent,
/// or holds a backslash. A refusal names the path.
pub proof fn law_folder_paths_are_checked(path: Seq<char>)
    ensures
        path_error(path) is None <==> path.len() == 0 || (path[0] != '/' && path.last() != '/' && forall|k: int|
            0 <= k < split(path, '/').len() ==> good_part(#[trigger] split(path, '/')[k])),
        path_error(path) matches Some(m) ==> contains(m, path),
        create_error(path) is None <==> path.len() > 0 && path_error(path) is None,
{
    lemma_part_error(path, split(path, '/'), 0);
    law_parts_are_found("leading or trailing slash: '"@, path, "'"@);
}

/// A path stands under a folder where it is the folder, or the folder with a slash
/// and more behind it; a name that merely begins alike does not count.
pub proof fn law_what_stands_under_a_folder(folder: Seq<char>, rest: Seq<char>, c: char)
    ensures
        under(folder, folder),
        under(folder + seq!['/'] + rest, folder),
        c != '/' ==> !under(folder.push(c) + rest, folder),
{
    let q = folder.push('/');
    let p = folder + seq!['/'] + rest;
    assert(p.subrange(0, q.len() as int) =~= q);
    if c != '/' {
        let r = folder.push(c) + rest;
        if starts_with(r, q) {
            assert(r.subrange(0, q.len() as int)[folder.len() as int] == '/');
            assert(r[folder.len() as int] == c);
        }
        assert(r.len() > folder.len());
    }
}

/// Renaming a folder puts the new path in place of the old one and keeps what
/// stands behind it; other paths stay.
pub proof fn law_renaming_changes_the_beginning(from: Seq<char>, rest: Seq<char>, to: Seq<char>, other: Seq<char>)
    ensures
        repath(from, from, to) == to,
        repath(from + seq!['/'] + rest, from, to) == to + seq!['/'] + rest,
        !under(other, from) ==> repath(other, from, to) == other,
{
    law_what_stands_under_a_folder(from, rest, 'x');
    assert(from.subrange(from.len() as int, from.len() as int) =~= Seq::<char>::empty());
    assert(to + Seq::<char>::empty() =~= to);
    let p = from + seq!['/'] + rest;
    assert(p.subrange(from.len() as int, p.len() as int) =~= seq!['/'] + rest);
    assert(to + (seq!['/'] + rest) =~= to + seq!['/'] + rest);
}

proof fn lemma_last_slash(path: Seq<char>, i: int)
    requires
        0 <= i <= path.len(),
    ensures
        match slash_before(path, i) {
            Some(k) => 0 <= k < i && path[k] == '/' && forall|j: int| k < j < i ==> path[j] != '/',
            None => forall|j: int| 0 <= j < i ==> path[j] != '/',
        },
    decreases i,
{
    if i > 0 && path[i - 1] != '/' {
        lemma_last_slash(path, i - 1);
    }
}

/// The folder above is what stands before the last slash; a path without a slash
/// stands at the root.
pub proof fn law_parents_end_at_the_last_slash(parent: Seq<char>, name: Seq<char>)
    requires
        free_of(name, '/'),
    ensures
        parent_of(parent + seq!['/'] + name) == Some(parent),
        parent_of(name) is None,
{
    let path = parent + seq!['/'] + name;
    lemma_last_slash(path, path.len() as int);
    assert(path[parent.len() as int] == '/');
    if let Some(k) = slash_before(path, path.len() as int) {
        if k > parent.len() {
            assert(path[k] == name[k - parent.len() - 1]);
        }
        assert(path.subrange(0, k) =~= parent);
    }
    lemma_last_slash(name, name.len() as int);
}

/// A folder that is created brings those above it along and no others; what was
/// there keeps its name.
pub proof fn law_created_folders_and_no_others(
    folders: Map<Seq<char>, Option<Seq<char>>>,
    path: Seq<char>,
    name: Option<Seq<char>>,
    k: Seq<char>,
)
    ensures
        with_folder(folders, path, name).dom().contains(k) <==> folders.dom().contains(k) || k == path || above(k, path),
        with_folder(folders, path, name)[path] == name,
        folders.dom().contains(k) && k != path ==> with_folder(folders, path, name)[k] == folders[k],
        !folders.dom().contains(k) && above(k, path) ==> with_folder(folders, path, name)[k] is None,
        folders_for(folders, None) == folders,
        folders.dom().contains(path) ==> folders_for(folders, Some(path)) == folders,
        path.len() > 0 && !folders.dom().contains(path) ==> folders_for(folders, Some(path)) == with_folder(
            folders,
            path,
            None,
        ),
{
}

/// A deleted folder is gone with all that stand under it, and no other is.
pub proof fn law_deleted_folders_and_no_others(folders: Map<Seq<char>, Option<Seq<char>>>, path: Seq<char>, k: Seq<char>)
    ensures
        pruned(folders, path).dom().contains(k) <==> folders.dom().contains(k) && !under(k, path),
        pruned(folders, path).dom().contains(k) ==> pruned(folders, path)[k] == folders[k],
{
}

/// A folder is renamed exactly where the new path is one that a folder may have,
/// the folder is there and no other is at the new path; each refusal says which it
/// was. A blank name clears the name, and without one it stays.
pub proof fn law_renames_are_refused(
    folders: Map<Seq<char>, Option<Seq<char>>>,
    from: Seq<char>,
    to: Seq<char>,
    shown: Option<Seq<char>>,
)
    ensures
        rename_error(folders, from, to) is None <==> path_error(to) is None && to.len() > 0 && folders.dom().contains(from)
            && (from == to || !folders.dom().contains(to)),
        path_error(to) is None && to.len() > 0 && !folders.dom().contains(from) ==> rename_error(folders, from, to) == Some(
            StoreErrorV::FolderNotFound(from),
        ),
        path_error(to) is None && to.len() > 0 && folders.dom().contains(from) && from != to && folders.dom().contains(to)
            ==> rename_error(folders, from, to) == Some(StoreErrorV::FolderConflict(to)),
        path_error(to) matches Some(m) ==> rename_error(folders, from, to) == Some(StoreErrorV::InvalidFolderPath(m)),
        name_after(None, shown) == shown,
        trim(to).len() == 0 ==> name_after(Some(to), shown) is None,
        trim(to).len() > 0 ==> name_after(Some(to), shown) == Some(to),
{
}

/// Of automations with one id the last counts, and of folders with one path; there
/// is nothing else.
pub proof fn law_the_last_of_an_id_counts(list: Seq<Automation>, folders: Seq<AutomationFolder>, i: int, key: Seq<char>)
    ensures
        0 <= i < list.len() && (forall|j: int| i < j < list.len() ==> (#[trigger] list[j]).id@ != list[i].id@) ==> by_ids(
            list,
        ).dom().contains(list[i].id@) && by_ids(list)[list[i].id@] == list[i],
        by_ids(list).dom().contains(key) <==> exists|j: int| 0 <= j < list.len() && (#[trigger] list[j]).id@ == key,
        0 <= i < folders.len() && (forall|j: int| i < j < folders.len() ==> (#[trigger] folders[j]).path@ != folders[i].path@)
            ==> by_paths(folders).dom().contains(folders[i].path@) && by_paths(folders)[folders[i].path@] == folders[i],
{
    lemma_by_ids(list, i, key);
    lemma_by_paths(folders, i);
}

proof fn lemma_by_ids(list: Seq<Automation>, i: int, key: Seq<char>)
    ensures
        0 <= i < list.len() && (forall|j: int| i < j < list.len() ==> (#[trigger] list[j]).id@ != list[i].id@) ==> by_ids(
            list,
        ).dom().contains(list[i].id@) && by_ids(list)[list[i].id@] == list[i],
        by_ids(list).dom().contains(key) <==> exists|j: int| 0 <= j < list.len() && (#[trigger] list[j]).id@ == key,
    decreases list.len(),
{
    if list.len() > 0 {
        let less = list.drop_last();
        lemma_by_ids(less, i, key);
        if 0 <= i < list.len() && (forall|j: int| i < j < list.len() ==> (#[trigger] list[j]).id@ != list[i].id@) {
            if i < less.len() {
                assert(list[list.len() - 1].id@ != list[i].id@);
                assert(less[i] == list[i]);
                assert forall|j: int| i < j < less.len() implies (#[trigger] less[j]).id@ != less[i].id@ by {
                    assert(less[j] == list[j]);
                }
            }
        }
        if by_ids(list).dom().contains(key) {
            if key == list.last().id@ {
                assert(list[list.len() - 1].id@ == key);
            } else {
                let j = choose|j: int| 0 <= j < less.len() && (#[trigger] less[j]).id@ == key;
                assert(list[j].id@ == key);
            }
        }
        if exists|j: int| 0 <= j < list.len() && (#[trigger] list[j]).id@ == key {
            let j = choose|j: int| 0 <= j < list.len() && (#[trigger] list[j]).id@ == key;
            if j < less.len() {
                assert(less[j].id@ == key);
            }
        }
    }
}

proof fn lemma_by_paths(list: Seq<AutomationFolder>, i: int)
    ensures
        0 <= i < list.len() && (forall|j: int| i < j < list.len() ==> (#[trigger] list[j]).path@ != list[i].path@)
            ==> by_paths(list).dom().contains(list[i].path@) && by_paths(list)[list[i].path@] == list[i],
    decreases list.len(),
{
    if list.len() > 0 {
        let less = list.drop_last();
        lemma_by_paths(less, i);
        if 0 <= i < list.len() && (forall|j: int| i < j < list.len() ==> (#[trigger] list[j]).path@ != list[i].path@) {
            if i < less.len() {
                assert(list[list.len() - 1].path@ != list[i].path@);
                assert(less[i] == list[i]);
                assert forall|j: int| i < j < less.len() implies (#[trigger] less[j]).path@ != less[i].path@ by {
                    assert(less[j] == list[j]);
                }
            }
        }
    }
}

/// An automation can be filed exactly where it is known and the folder is one that
/// can be made; the root needs none.
pub proof fn law_automations_can_be_filed(known: bool, id: Seq<char>, folder: Seq<char>)
    ensures
        filing_error(known, id, None) is None <==> known,
        filing_error(known, id, Some(folder)) is None <==> known && (folder.len() == 0 || create_error(folder) is None),
        !known ==> (filing_error(known, id, Some(folder)) matches Some(m) && contains(m, id)),
        known && folder.len() > 0 ==> (create_error(folder) matches Some(e) ==> filing_error(known, id, Some(folder)) == Some(
            e.message(),
        )),
{
    law_parts_are_found("automation "@, id, " not found"@);
}

// ---------------------------------------------------------------------------
// Runs
// ---------------------------------------------------------------------------

/// The file name of an id has its length; characters that are kept stand where they
/// stood, and every other is an underscore there.
pub proof fn law_file_names_show_the_id(id: Seq<char>, i: int)
    requires
        0 <= i < id.len(),
    ensures
        safe_name(id).len() == id.len(),
        id.len() > 2 && is_safe(id[i]) ==> safe_name(id)[i] == id[i],
        id.len() > 2 && !is_safe(id[i]) ==> safe_name(id)[i] == '_',
        ('a' <= id[i] <= 'z') || ('A' <= id[i] <= 'Z') || ('0' <= id[i] <= '9') || id[i] == '-' || id[i] == '_' || id[i]
            == '.' || id[i] == ':' ==> is_safe(id[i]),
        id[i] == '/' || id[i] == '\\' || id[i] == ' ' ==> !is_safe(id[i]),
{
    reveal_strlit(".");
    reveal_strlit("..");
    reveal_strlit("_");
    reveal_strlit("__");
    assert("."@.len() == 1 && ".."@.len() == 2 && "_"@.len() == 1 && "__"@.len() == 2);
    assert(kept_name(id).len() == id.len());
    assert(kept_name(id)[i] == if is_safe(id[i]) {
        id[i]
    } else {
        '_'
    });
}

/// The file of a run stands in the directory of its automation, under the run's
/// name.
pub proof fn law_runs_lie_with_their_automation(automation: Seq<char>, run: Seq<char>)
    ensures
        run_key(automation, run) == safe_name(automation) + seq!['/'] + safe_name(run) + seq!['.', 'j', 's', 'o', 'n'],
{
    reveal_strlit("/");
    reveal_strlit(".json");
    assert("/"@ =~= seq!['/']);
    assert(".json"@ =~= seq!['.', 'j', 's', 'o', 'n']);
    assert(run_key(automation, run) =~= safe_name(automation) + seq!['/'] + safe_name(run) + seq!['.', 'j', 's', 'o', 'n']);
}

/// A run that starts is running, has its ids and its input, and nothing has
/// happened in it; a run whose status changes keeps all else.
pub proof fn law_runs_start_empty(run: Run, automation: Seq<char>, id: Seq<char>, input: Seq<char>, now: u64, after: Run, s: RunStatus)
    ensures
        run.starts(automation, id, input, now) <==> {
            &&& run.run_id@ == id
            &&& run.automation_id@ == automation
            &&& run.trigger_input@ == input
            &&& run.status == RunStatus::Running
            &&& run.started_at_unix == now
            &&& run.finished_at_unix is None
            &&& run.checkpoints@.len() == 0
        },
        run.with_status(after, s) ==> after.status == s && after.run_id == run.run_id && after.automation_id
            == run.automation_id && after.trigger_input == run.trigger_input && after.checkpoints == run.checkpoints
            && after.started_at_unix == run.started_at_unix && after.finished_at_unix == run.finished_at_unix
            && after.forked_from == run.forked_from,
{
}

// ---------------------------------------------------------------------------
// Variants
// ---------------------------------------------------------------------------

/// The branch, the worktree, the agent and the run of a variant hold its number.
pub proof fn law_variants_are_named_by_number(dir: Seq<char>, session: Seq<char>, i: nat, agent: Seq<char>)
    ensures
        branch_of(i) == seq!['a', 'x', 'o', '/', 'v', 'a', 'r', 'i', 'a', 'n', 't', '-'] + decimal(i),
        worktree_of(dir, i) == variants_dir(dir) + seq!['/'] + decimal(i),
        variants_dir(dir) == dir + seq!['/', '.', 'a', 'x', 'o', '-', 'v', 'a', 'r', 'i', 'a', 'n', 't', 's'],
        variant_run(session, i) == session + seq!['#'] + decimal(i),
        variant_agent(session, i, agent) == variant_run(session, i) + seq![':'] + agent,
{
    reveal_strlit("axo/variant-");
    reveal_strlit("/.axo-variants");
    reveal_strlit("/.axo-variants/");
    reveal_strlit("#");
    reveal_strlit(":");
    assert("axo/variant-"@ =~= seq!['a', 'x', 'o', '/', 'v', 'a', 'r', 'i', 'a', 'n', 't', '-']);
    assert("/.axo-variants"@ =~= seq!['/', '.', 'a', 'x', 'o', '-', 'v', 'a', 'r', 'i', 'a', 'n', 't', 's']);
    assert("/.axo-variants/"@ =~= "/.axo-variants"@ + seq!['/']);
    assert("#"@ =~= seq!['#']);
    assert(":"@ =~= seq![':']);
    assert(dir + "/.axo-variants/"@ + decimal(i) =~= variants_dir(dir) + seq!['/'] + decimal(i));
}

/// A branch that is none of a variant's is recognised as such.
pub proof fn law_other_branches_are_no_variants(branch: Seq<char>)
    requires
        !starts_with(branch, "axo/variant-"@),
    ensures
        variant_in(branch) is None,
{
}

/// Each variant is made on its own new branch, in its own worktree, from the
/// current commit; an old branch of the name is dropped first.
pub proof fn law_variants_are_made_in_turn(st: SetupV, outcome: CommandResult)
    requires
        st.wf(),
    ensures
        st.phase is DropBranch ==> st.next() == (ActionV::Git {
            cwd: st.dir,
            args: seq!["branch"@, "-D"@, branch_of(st.made as nat)],
        }) && st.after(outcome).phase is AddWorktree && st.after(outcome).made == st.made,
        st.phase is AddWorktree ==> st.next() == (ActionV::Git {
            cwd: st.dir,
            args: seq![
                "worktree"@,
                "add"@,
                "-q"@,
                "-b"@,
                branch_of(st.made as nat),
                worktree_of(st.dir, st.made as nat),
                "HEAD"@,
            ],
        }),
        st.phase is AddWorktree ==> (outcome matches Ok(r) ==> r.exit_code == 0 ==> st.after(outcome).made == st.made + 1
            && (st.after(outcome).phase is Finished <==> st.made + 1 == st.wanted)),
        st.phase is AddWorktree ==> (outcome matches Ok(r) ==> r.exit_code != 0 ==> st.after(outcome).phase
            == PhaseV::RollBack(not_added(st.made, st.wanted, r.stderr@)) && st.after(outcome).made == st.made),
        st.phase is AddWorktree ==> (outcome matches Err(e) ==> st.after(outcome).phase == PhaseV::RollBack(e@)),
        st.phase matches PhaseV::RollBack(e) ==> st.after(outcome).phase == PhaseV::Failed(e) && st.next() == ActionV::Clear,
        st.after(outcome).dir == st.dir && st.after(outcome).wanted == st.wanted,
        not_added(st.made, st.wanted, st.dir) matches DaemonErrorV::Session(m) && contains(m, trim(st.dir)),
{
    law_parts_are_found(
        "couldn't create variant "@ + decimal((st.made + 1) as nat) + " of "@ + decimal(st.wanted as nat) + " ("@,
        trim(st.dir),
        "). Try fewer variants."@,
    );
}

/// The line names the worktree of a variant.
pub open spec fn names_variant(line: Seq<char>) -> bool {
    strip(line, "worktree "@) matches Some(p) && contains(p, "/.axo-variants/"@)
}

proof fn lemma_worktrees(ls: Seq<Seq<char>>)
    ensures
        worktrees_in(ls).len() == ls.filter(|l: Seq<char>| names_variant(l)).len(),
        forall|i: int|
            0 <= i < worktrees_in(ls).len() ==> strip(ls.filter(|l: Seq<char>| names_variant(l))[i], "worktree "@) == Some(
                #[trigger] worktrees_in(ls)[i],
            ),
    decreases ls.len(),
{
    reveal(Seq::filter);
    if ls.len() > 0 {
        lemma_worktrees(ls.drop_last());
        let f = |l: Seq<char>| names_variant(l);
        let rest = ls.drop_last().filter(f);
        let all = ls.filter(f);
        let t = worktrees_in(ls);
        assert forall|i: int| 0 <= i < t.len() implies strip(all[i], "worktree "@) == Some(#[trigger] t[i]) by {
            if i < rest.len() {
                assert(all[i] == rest[i]);
                assert(t[i] == worktrees_in(ls.drop_last())[i]);
            }
        }
    }
}

/// Removing all variants removes each worktree that git lists under their
/// directory, by force, then the directory, and lets git forget them. No other
/// worktree is touched.
pub proof fn law_all_variants_are_removed(dir: Seq<char>, listing: Seq<char>, i: int)
    ensures
        ({
            let acts = removals(dir, Some(listing));
            let named = lines(listing).filter(|l: Seq<char>| names_variant(l));
            let n = named.len() as int;
            &&& acts.len() == n + 2
            &&& 0 <= i < n ==> (acts[i] matches ActionV::Git { cwd, args } && cwd == dir && args.len() == 4 && args[0]
                == "worktree"@ && args[1] == "remove"@ && args[2] == "--force"@ && strip(named[i], "worktree "@) == Some(
                args[3],
            ))
            &&& acts[n] == (ActionV::Exec { argv: seq!["rm"@, "-rf"@, variants_dir(dir)], secs: 15 })
            &&& acts[n + 1] == (ActionV::Git { cwd: dir, args: seq!["worktree"@, "prune"@] })
        }),
        removals(dir, None).len() == 2,
{
    lemma_worktrees(lines(listing));
    let ws = worktrees_in(lines(listing));
    let acts = removals(dir, Some(listing));
    if 0 <= i < ws.len() {
        assert(acts[i] == removal(dir, ws[i]));
    }
}

/// The name is a number.
pub open spec fn numbers_variant(name: Seq<char>) -> bool {
    parse_number(name, usize::MAX as u64) is Some
}

/// The variants in a listing are the names that are numbers, in order.
pub proof fn law_listed_variants_are_numbers(names: Seq<Seq<char>>)
    ensures
        indices_in(names).len() == names.filter(|n: Seq<char>| numbers_variant(n)).len(),
        forall|i: int|
            0 <= i < indices_in(names).len() ==> (parse_number(
                names.filter(|n: Seq<char>| numbers_variant(n))[i],
                usize::MAX as u64,
            ) matches Some(k) && #[trigger] indices_in(names)[i] == k as usize),
    decreases names.len(),
{
    reveal(Seq::filter);
    if names.len() > 0 {
        law_listed_variants_are_numbers(names.drop_last());
        let f = |n: Seq<char>| numbers_variant(n);
        let rest = names.drop_last().filter(f);
        let all = names.filter(f);
        let t = indices_in(names);
        assert forall|i: int| 0 <= i < t.len() implies (parse_number(all[i], usize::MAX as u64) matches Some(k)
            && #[trigger] t[i] == k as usize) by {
            if i < rest.len() {
                assert(all[i] == rest[i]);
                assert(t[i] == indices_in(names.drop_last())[i]);
            }
        }
    }
}

/// Taking a variant over stages and commits what changed in its worktree, merges
/// its branch into the session's directory, and only then removes all variants; a
/// failed merge is told with what git said.
pub proof fn law_adoption_commits_and_merges(st: AdoptionV, r: ExecResult)
    ensures
        ({
            let tree = worktree_of(st.dir, st.index as nat);
            let next = st.after(Ok(r));
            &&& next.dir == st.dir && next.branch == st.branch && next.index == st.index
            &&& st.phase is Stage ==> st.next() == (ActionV::Git { cwd: tree, args: seq!["add"@, "-A"@] }) && next.phase is Look
            &&& st.phase is Look ==> st.next() == (ActionV::Git { cwd: tree, args: seq!["status"@, "--porcelain"@] })
            &&& st.phase is Look && trim(r.stdout@).len() > 0 ==> next.phase is Commit
            &&& st.phase is Look && trim(r.stdout@).len() == 0 ==> next.phase is Merge
            &&& st.phase is Commit ==> (st.next() matches ActionV::Git { cwd, args } && cwd == tree && args.len() == 4
                && args[0] == "commit"@ && contains(args[3], st.branch)) && next.phase is Merge
            &&& st.phase is Merge ==> st.next() == (ActionV::Git {
                cwd: st.dir,
                args: seq!["merge"@, "--no-edit"@, st.branch],
            })
            &&& st.phase is Merge && r.exit_code == 0 ==> next.phase is ClearAll
            &&& st.phase is Merge && r.exit_code != 0 ==> (next.phase matches AdoptPhaseV::Failed(DaemonErrorV::Session(m))
                && contains(m, trim(r.stderr@)) && contains(m, st.branch))
            &&& st.phase is ClearAll ==> st.next() == ActionV::Clear && next.phase is Finished
        }),
{
    let e = Seq::<char>::empty();
    law_parts_are_found("axocoatl: adopt "@, st.branch, e);
    assert("axocoatl: adopt "@ + st.branch + e =~= "axocoatl: adopt "@ + st.branch);
    let said = trim(r.stderr@);
    let m = "adopt failed to merge "@ + st.branch + ": "@ + said;
    law_parts_are_found("adopt failed to merge "@, st.branch, ": "@ + said);
    assert("adopt failed to merge "@ + st.branch + (": "@ + said) =~= m);
    law_parts_are_found("adopt failed to merge "@ + st.branch + ": "@, said, e);
    assert(m + e =~= m);
}

/// The script that keeps variants out of the repository's status works on the
/// repository of the directory alone.
pub proof fn law_variants_are_excluded(dir: Seq<char>)
    ensures
        contains(exclude_script(dir), dir + "/.git/info/exclude"@),
{
    let file = dir + "/.git/info/exclude"@;
    let a = "grep -qxF '.axo-variants/' '"@;
    let b = "' 2>/dev/null || echo '.axo-variants/' >> '"@;
    law_parts_are_found(a, file, b + file + "'"@);
    assert(exclude_script(dir) =~= a + file + (b + file + "'"@));
}

// ---------------------------------------------------------------------------
// Moves and lists
// ---------------------------------------------------------------------------

/// A rename of a folder takes the automations under it along and changes nothing
/// else of any automation; one that is filed elsewhere, or nowhere, stays there.
pub proof fn law_renames_take_automations_along(
    a: Map<Seq<char>, Automation>,
    b: Map<Seq<char>, Automation>,
    from: Seq<char>,
    to: Seq<char>,
    id: Seq<char>,
    rest: Seq<char>,
)
    requires
        refiled(a, b, from, to),
        a.dom().contains(id),
    ensures
        b.dom().contains(id),
        b[id].id == a[id].id && b[id].name == a[id].name && b[id].nodes == a[id].nodes && b[id].edges == a[id].edges,
        a[id].folder is None ==> b[id].folder is None,
        opt_view(a[id].folder) == Some(from) ==> opt_view(b[id].folder) == Some(to),
        opt_view(a[id].folder) == Some(from + seq!['/'] + rest) ==> opt_view(b[id].folder) == Some(to + seq!['/'] + rest),
        opt_view(a[id].folder) matches Some(p) ==> !under(p, from) ==> opt_view(b[id].folder) == Some(p),
{
    law_renaming_changes_the_beginning(from, rest, to, from);
    if let Some(p) = opt_view(a[id].folder) {
        assert(repath_opt(Some(p), from, to) == Some(repath(p, from, to)));
        if p == from {
            assert(from.subrange(from.len() as int, from.len() as int) =~= Seq::<char>::empty());
            assert(to + Seq::<char>::empty() =~= to);
        }
    }
}

/// A renamed folder has its new name to show, and every folder keeps its own.
pub proof fn law_renames_take_folders_along(
    before: Map<Seq<char>, Option<Seq<char>>>,
    after: Map<Seq<char>, Option<Seq<char>>>,
    from: Seq<char>,
    to: Seq<char>,
    name: Option<Seq<char>>,
    p: Seq<char>,
)
    requires
        relocated(before, after, from, to, name),
    ensures
        before.dom().contains(p) ==> after.dom().contains(repath(p, from, to)),
        after.dom().contains(to) ==> after[to] == name,
        after.dom().contains(p) && p != to ==> exists|q: Seq<char>| #[trigger]
            before.dom().contains(q) && repath(q, from, to) == p && after[p] == before[q],
{
}

/// Runs are listed newest first; automations in the order of their ids, and folders
/// in that of their paths.
pub proof fn law_stored_things_are_in_order<'a>(
    runs: Seq<&'a Run>,
    automations: Seq<&'a Automation>,
    folders: Seq<&'a AutomationFolder>,
    i: int,
    j: int,
)
    requires
        sorted(runs),
        sorted(automations),
        sorted(folders),
        0 <= i < j,
    ensures
        j < runs.len() ==> runs[i].started_at_unix >= runs[j].started_at_unix,
        j < automations.len() ==> !before(automations[j].id@, automations[i].id@),
        j < folders.len() ==> !before(folders[j].path@, folders[i].path@),
{
    if j < runs.len() {
        assert(!<&'a Run>::comes_before(runs[j], runs[i]));
    }
    if j < automations.len() {
        assert(!<&'a Automation>::comes_before(automations[j], automations[i]));
    }
    if j < folders.len() {
        assert(!<&'a AutomationFolder>::comes_before(folders[j], folders[i]));
    }
}

/// The listed runs are those of the automation, each once, and all of them.
pub proof fn law_listed_runs_are_those_of_the_automation(r: Seq<&Run>, m: Map<Seq<char>, Run>, id: Seq<char>, k: Seq<char>, i: int)
    requires
        lists_runs(r, m, id),
    ensures
        0 <= i < r.len() ==> safe_name(r[i].automation_id@) == safe_name(id),
        0 <= i < r.len() ==> exists|q: Seq<char>| #[trigger] m.dom().contains(q) && m[q] == *r[i],
        m.dom().contains(k) && m[k].automation_id@ == id ==> exists|j: int| 0 <= j < r.len() && *(#[trigger] r[j]) == m[k],
{
    if 0 <= i < r.len() {
        assert(has_value(m, *r[i]));
    }
}

/// Deleting a folder alone moves the automations under it to the folder above and
/// changes nothing else of any automation.
pub proof fn law_lone_deletion_lifts_automations(
    a: Map<Seq<char>, Automation>,
    b: Map<Seq<char>, Automation>,
    path: Seq<char>,
    id: Seq<char>,
)
    requires
        lifted(a, b, path),
        a.dom().contains(id),
    ensures
        b.dom().contains(id),
        b[id].id == a[id].id && b[id].name == a[id].name && b[id].nodes == a[id].nodes && b[id].edges == a[id].edges,
        a[id].folder is None ==> b[id] == a[id],
        opt_view(a[id].folder) matches Some(p) ==> under(p, path) ==> opt_view(b[id].folder) == parent_of(path),
        opt_view(a[id].folder) matches Some(p) ==> !under(p, path) ==> b[id] == a[id],
{
}

} // verus!
