use axocoatl::daemon::diff::DiffRun;
use axocoatl::daemon::git::{
    check_diff_path, git_diff, is_readable, looks_binary, parse_branches, parse_status, read_size, GitFile,
    DIFF_MAX_BYTES,
};
use axocoatl::daemon::sessions::{
    ensure_session_git, git_branches, git_checkout, git_commit, git_discard, git_status, is_repository, session_git_at,
};
use axocoatl::daemon::variants::{
    check_variant_count, remove_variant_worktrees, variant_actor, variant_branches, variant_index, variant_run_text,
    variant_status, variants_status, worktree_text, Adoption, VariantAction, VariantSetup,
};
use axocoatl::isolation::session_sandbox::ExecResult;
use axocoatl::text::{char_is_space, trimmed};

fn ran(exit_code: i32, stdout: &str, stderr: &str) -> ExecResult {
    ExecResult { exit_code, stdout: stdout.into(), stderr: stderr.into() }
}

#[test]
fn status_parses_branch_and_states() {
    let out = "## main...origin/main [ahead 1]\n\
                M  src/lib.rs\n\
               ?? new.txt\n\
               A  added.rs\n\
                D gone.rs\n";
    assert!(is_readable(out));
    let s = parse_status(out);
    assert_eq!(s.branch, "main");
    assert!(!s.clean);
    assert_eq!(s.files.len(), 4);
    assert_eq!(s.files[0], GitFile { path: "src/lib.rs".into(), state: "modified".into() });
    assert_eq!(s.files[1].state, "untracked");
    assert_eq!(s.files[2].state, "added");
    assert_eq!(s.files[3].state, "deleted");
}

#[test]
fn status_handles_no_commits_and_clean() {
    let s = parse_status("## No commits yet on main\n");
    assert_eq!(s.branch, "main");
    assert!(s.clean);
    assert!(s.files.is_empty());
}

#[test]
fn status_rename_takes_new_path() {
    let s = parse_status("## main\nR  old.rs -> new.rs\n");
    assert_eq!(s.files[0], GitFile { path: "new.rs".into(), state: "renamed".into() });
}

#[test]
fn binary_heuristic() {
    assert!(looks_binary("text\0more"));
    assert!(looks_binary(&format!("{}\0", "a".repeat(8000))));
    assert!(!looks_binary("fn main() {}\nlet x = 1;\n"));
    assert!(!looks_binary(""));
    assert!(!looks_binary(&format!("{}\0", "a".repeat(9000))));
}

#[test]
fn branches_parse() {
    let b = parse_branches("main\n", "main\naxo/variant-0\naxo/variant-1\n");
    assert_eq!(b.current, "main");
    assert_eq!(b.branches, vec!["main", "axo/variant-0", "axo/variant-1"]);
}

#[test]
fn diffs_blank_what_cannot_be_shown() {
    let d = git_diff("f", "old".into(), "new".into(), 3);
    assert_eq!((d.old.as_str(), d.new.as_str(), d.binary, d.too_large), ("old", "new", false, false));
    let d = git_diff("f", "old".into(), "n\0w".into(), 3);
    assert_eq!((d.old.as_str(), d.new.as_str(), d.binary, d.too_large), ("", "", true, false));
    let d = git_diff("f", "old".into(), "".into(), DIFF_MAX_BYTES + 1);
    assert_eq!((d.old.as_str(), d.new.as_str(), d.binary, d.too_large), ("", "", false, true));
    assert!(check_diff_path("../x").is_err());
    assert!(check_diff_path("src/x.rs").is_ok());
    assert_eq!(read_size(Some("  524 /w/f\n")), 524);
    assert_eq!(read_size(Some("what")), 0);
    assert_eq!(read_size(None), 0);
}

#[test]
fn diffs_are_read_command_by_command() {
    assert!(DiffRun::start("/w", "a..b").is_err());
    let d = DiffRun::start("/w", "src/a.rs").unwrap();
    let (argv, secs) = d.next().unwrap();
    assert_eq!(argv, vec!["git", "-c", "safe.directory=*", "-C", "/w", "show", "HEAD:src/a.rs"]);
    assert_eq!(secs, 30);
    let d = d.reply(Some(ran(0, "old\n", "")));
    assert_eq!(d.next().unwrap().0, vec!["wc", "-c", "/w/src/a.rs"]);
    let d = d.reply(Some(ran(0, "4 /w/src/a.rs\n", "")));
    assert_eq!(d.next().unwrap().0, vec!["cat", "/w/src/a.rs"]);
    let d = d.reply(Some(ran(0, "new\n", "")));
    assert!(d.next().is_none());
    let g = d.git_diff().unwrap();
    assert_eq!((g.path.as_str(), g.old.as_str(), g.new.as_str()), ("src/a.rs", "old\n", "new\n"));

    let d = DiffRun::start("/w", "big").unwrap().reply(None).reply(Some(ran(0, "600000 /w/big\n", "")));
    assert!(d.next().is_none());
    assert!(d.git_diff().unwrap().too_large);
    assert!(DiffRun::start("/w", "f").unwrap().git_diff().is_none());
}

#[test]
fn git_runs_in_the_session_directory() {
    let args: Vec<String> = vec!["status".into()];
    assert_eq!(session_git_at("/w", &args), vec!["git", "-c", "safe.directory=*", "-C", "/w", "status"]);
    assert!(is_repository(&ran(0, "true\n", "")));
    assert!(!is_repository(&ran(0, "false\n", "")));
    assert!(!is_repository(&ran(128, "", "fatal")));
    let steps = ensure_session_git();
    assert_eq!(steps.len(), 5);
    assert_eq!(steps[0], vec!["init", "-q"]);
    assert_eq!(steps[4], vec!["commit", "-q", "-m", "axocoatl: baseline", "--allow-empty"]);
    assert_eq!(git_commit("  "), vec!["commit", "-q", "-m", "axocoatl: snapshot"]);
    assert_eq!(git_commit("fix"), vec!["commit", "-q", "-m", "fix"]);
    assert_eq!(git_status(), vec!["status", "--porcelain=v1", "-b", "--untracked-files=all"]);
    let (current, all) = git_branches();
    assert_eq!(current, vec!["rev-parse", "--abbrev-ref", "HEAD"]);
    assert_eq!(all, vec!["branch", "--format=%(refname:short)"]);
    assert!(git_discard(Some("../x")).is_err());
    let (a, b) = git_discard(Some("x")).unwrap();
    assert_eq!((a, b), (vec!["checkout".to_string(), "--".into(), "x".into()], vec!["clean".to_string(), "-fd".into(), "--".into(), "x".into()]));
    assert!(git_checkout(&ran(0, "", "")).is_ok());
    assert!(git_checkout(&ran(1, "", "no such ref\n")).is_err());
}

// --- Variants ---------------------------------------------------------------

#[test]
fn variants_have_names_of_their_own() {
    assert_eq!(worktree_text("/w", 3), "/w/.axo-variants/3");
    assert_eq!(variant_run_text("s1", 0), "s1#0");
    assert_eq!(variant_actor("s1", 12, "coder"), "s1#12:coder");
    assert_eq!(variant_index("axo/variant-7"), Some(7));
    assert_eq!(variant_index("axo/variant-x"), None);
    assert_eq!(variant_index("main"), None);
    assert!(check_variant_count(0).is_err());
    assert!(check_variant_count(1).is_ok());
    assert!(check_variant_count(100).is_ok());
    assert!(check_variant_count(101).is_err());
}

fn run_setup(wanted: usize, fail_at: Option<usize>) -> (VariantSetup, Vec<VariantAction>) {
    let mut s = VariantSetup::start("/w", wanted);
    let mut log = Vec::new();
    let mut added = 0;
    loop {
        let a = s.next();
        if matches!(a, VariantAction::Done) {
            return (s, log);
        }
        let mut outcome = ran(0, "", "");
        if let VariantAction::Git { args, .. } = &a {
            if args[0] == "worktree" {
                if Some(added) == fail_at {
                    outcome = ran(128, "", " disk full \n");
                }
                added += 1;
            }
        }
        log.push(a);
        s = s.reply(Ok(outcome));
    }
}

#[test]
fn variants_are_made_one_by_one() {
    let (s, log) = run_setup(2, None);
    assert_eq!(log.len(), 3 + 2 * 2);
    assert!(matches!(&log[0], VariantAction::Exec { argv, secs: 10 } if argv[2]
        == "grep -qxF '.axo-variants/' '/w/.git/info/exclude' 2>/dev/null || echo '.axo-variants/' >> '/w/.git/info/exclude'"));
    assert!(matches!(log[1], VariantAction::Clear));
    assert!(matches!(&log[4], VariantAction::Git { args, .. }
        if args.join(" ") == "worktree add -q -b axo/variant-0 /w/.axo-variants/0 HEAD"));
    let v = s.create_variant_worktrees().unwrap().unwrap();
    assert_eq!(v.len(), 2);
    assert_eq!((v[1].index, v[1].branch.as_str(), v[1].worktree.as_str()), (1, "axo/variant-1", "/w/.axo-variants/1"));
}

#[test]
fn a_failed_variant_rolls_all_back() {
    let (s, log) = run_setup(3, Some(1));
    assert!(matches!(log.last(), Some(VariantAction::Clear)));
    match s.create_variant_worktrees() {
        Some(Err(axocoatl::daemon::automation_executor::DaemonError::Session(m))) => {
            assert_eq!(m, "couldn't create variant 2 of 3 (disk full). Try fewer variants.")
        }
        _ => panic!("expected a session error"),
    }
}

#[test]
fn variants_are_removed_by_what_git_lists() {
    let listing = "worktree /w\nHEAD abc\n\nworktree /w/.axo-variants/0\nHEAD abc\n";
    let plan = remove_variant_worktrees("/w", Some(listing));
    assert_eq!(plan.len(), 3);
    assert!(matches!(&plan[0], VariantAction::Git { args, .. }
        if args.join(" ") == "worktree remove --force /w/.axo-variants/0"));
    assert!(matches!(&plan[1], VariantAction::Exec { argv, secs: 15 } if argv.join(" ") == "rm -rf /w/.axo-variants"));
    assert!(matches!(&plan[2], VariantAction::Git { args, .. } if args.join(" ") == "worktree prune"));
    assert_eq!(remove_variant_worktrees("/w", None).len(), 2);
    assert_eq!(variant_branches(" axo/variant-0 \n\naxo/variant-1\n"), vec!["axo/variant-0", "axo/variant-1"]);
}

#[test]
fn variants_are_listed_in_order() {
    assert_eq!(variants_status("10\n2\nnotes\n 0 \n"), vec![0, 2, 10]);
    let v = variant_status("/w", 2, Some("## axo/variant-2\n?? a\n"));
    assert_eq!((v.index, v.branch.as_str(), v.worktree.as_str()), (2, "axo/variant-2", "/w/.axo-variants/2"));
    assert_eq!(v.status.branch, "axo/variant-2");
    assert_eq!(v.status.files.len(), 1);
    assert!(variant_status("/w", 0, None).status.clean);
}

#[test]
fn adopting_merges_before_it_clears() {
    match Adoption::start("/w", "main") {
        Err(axocoatl::daemon::automation_executor::DaemonError::Session(m)) => {
            assert_eq!(m, "not a variant branch: main")
        }
        _ => panic!("expected a session error"),
    }
    let mut a = Adoption::start("/w", "axo/variant-1").unwrap();
    let mut seen = Vec::new();
    loop {
        let next = a.next();
        let outcome = match &next {
            VariantAction::Done => break,
            VariantAction::Git { args, .. } => {
                seen.push(args.join(" "));
                if args[0] == "status" { ran(0, " M x\n", "") } else { ran(0, "", "") }
            }
            VariantAction::Clear => {
                seen.push("clear".into());
                ran(0, "", "")
            }
            _ => ran(0, "", ""),
        };
        a = a.reply(Ok(outcome));
    }
    assert_eq!(
        seen,
        vec![
            "add -A",
            "status --porcelain",
            "commit -q -m axocoatl: adopt axo/variant-1",
            "merge --no-edit axo/variant-1",
            "clear"
        ]
    );
    assert!(matches!(a.adopt_variant(), Some(Ok(()))));

    let mut a = Adoption::start("/w", "axo/variant-1").unwrap();
    a = a.reply(Ok(ran(0, "", ""))).reply(Ok(ran(0, "\n", "")));
    assert!(matches!(a.next(), VariantAction::Git { args, .. } if args[0] == "merge"));
    a = a.reply(Ok(ran(1, "", "conflict\n")));
    match a.adopt_variant() {
        Some(Err(axocoatl::daemon::automation_executor::DaemonError::Session(m))) => {
            assert_eq!(m, "adopt failed to merge axo/variant-1: conflict")
        }
        _ => panic!("expected a session error"),
    }
}

#[test]
fn blanks_are_the_white_space_of_unicode() {
    let blanks = "\u{9}\u{a}\u{b}\u{c}\u{d}\u{20}\u{85}\u{a0}\u{1680}\u{2000}\u{2001}\u{2002}\u{2003}\u{2004}\u{2005}\u{2006}\u{2007}\u{2008}\u{2009}\u{200a}\u{2028}\u{2029}\u{202f}\u{205f}\u{3000}";
    assert_eq!(blanks.chars().count(), 25);
    assert_eq!(trimmed(blanks), "");
    assert_eq!(trimmed(&format!("{blanks}a{blanks}")), "a");
    for c in ["\u{8}", "\u{e}", "\u{180e}", "\u{200b}", "\u{2060}", "\u{feff}"] {
        assert_eq!(trimmed(c), c);
    }
    for c in (0..=0x10ffff_u32).filter_map(char::from_u32) {
        assert_eq!(char_is_space(c), c.is_whitespace());
    }
}
