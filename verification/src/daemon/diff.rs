//! The two sides of a file's diff, read command by command.
//!
//! `DiffRun` says which command is next and takes what came of it. The size is
//! looked at before the file is read, so a large one never is.
use vstd::prelude::*;

use crate::daemon::automation_executor::{DaemonError, DaemonErrorV};
use crate::daemon::git;
use crate::daemon::git::{GitDiff, check_diff_path, diff_too_large, exceeds, is_binary, printed_size, read_size};
use crate::daemon::sessions::{git_line, session_git_at};
use crate::isolation::session_sandbox::ExecResult;
use crate::text::{concat, contains, push_text, views};

verus! {

/// Which command is next.
#[derive(Debug, Clone, Copy, PartialEq, Eq, Structural)]
pub enum DiffPhase {
    /// The committed side.
    Head,
    /// The size of the file.
    Size,
    /// The file.
    Read,
    /// None.
    Ready,
}

/// The reading of the two sides.
#[derive(Debug)]
pub struct DiffRun {
    dir: String,
    path: String,
    old_side: String,
    new_side: String,
    size: usize,
    phase: DiffPhase,
}

pub struct DiffRunV {
    pub dir: Seq<char>,
    pub path: Seq<char>,
    pub old_side: Seq<char>,
    pub new_side: Seq<char>,
    pub size: usize,
    pub phase: DiffPhase,
}

impl View for DiffRun {
    type V = DiffRunV;

    closed spec fn view(&self) -> DiffRunV {
        DiffRunV {
            dir: self.dir@,
            path: self.path@,
            old_side: self.old_side@,
            new_side: self.new_side@,
            size: self.size,
            phase: self.phase,
        }
    }
}

/// What a command printed, where it ran and succeeded.
pub open spec fn printed(outcome: Option<ExecResult>) -> Option<Seq<char>> {
    match outcome {
        Some(r) => if r.exit_code == 0 {
            Some(r.stdout@)
        } else {
            None
        },
        None => None,
    }
}

/// What a command printed; a failed one printed nothing.
pub open spec fn printed_text(outcome: Option<ExecResult>) -> Seq<char> {
    match printed(outcome) {
        Some(s) => s,
        None => Seq::empty(),
    }
}

fn printed_by(outcome: Option<ExecResult>) -> (r: String)
    ensures
        r@ == printed_text(outcome),
{
    match outcome {
        Some(r) => if r.exit_code == 0 {
            r.stdout
        } else {
            String::new()
        },
        None => String::new(),
    }
}

impl DiffRunV {
    /// The next command and the seconds that it has.
    pub open spec fn next(self) -> Option<(Seq<Seq<char>>, u64)> {
        let full = self.dir + "/"@ + self.path;
        match self.phase {
            DiffPhase::Head => Some((git_line(self.dir, seq!["show"@, "HEAD:"@ + self.path]), 30)),
            DiffPhase::Size => Some((seq!["wc"@, "-c"@, full], 10)),
            DiffPhase::Read => Some((seq!["cat"@, full], 30)),
            DiffPhase::Ready => None,
        }
    }

    /// What follows the outcome of the command.
    pub open spec fn after(self, outcome: Option<ExecResult>) -> DiffRunV {
        match self.phase {
            DiffPhase::Head => DiffRunV { old_side: printed_text(outcome), phase: DiffPhase::Size, ..self },
            DiffPhase::Size => {
                let size = printed_size(printed(outcome));
                DiffRunV {
                    size,
                    phase: if exceeds(self.old_side, size) {
                        DiffPhase::Ready
                    } else {
                        DiffPhase::Read
                    },
                    ..self
                }
            },
            DiffPhase::Read => DiffRunV { new_side: printed_text(outcome), phase: DiffPhase::Ready, ..self },
            DiffPhase::Ready => self,
        }
    }

    /// How many commands are left at most.
    pub open spec fn left(self) -> nat {
        match self.phase {
            DiffPhase::Head => 3,
            DiffPhase::Size => 2,
            DiffPhase::Read => 1,
            DiffPhase::Ready => 0,
        }
    }
}

/// Reading the sides ends, and a file that is too large is not read: nothing
/// but its size is asked for.
pub proof fn law_large_files_are_not_read(st: DiffRunV, outcome: Option<ExecResult>)
    ensures
        st.next() is Some ==> st.after(outcome).left() < st.left(),
        st.phase == DiffPhase::Size && exceeds(st.old_side, printed_size(printed(outcome))) ==> st.after(
            outcome,
        ).next() is None,
{
}

impl DiffRun {
    /// The reading of a file's sides; a path with two dots is refused.
    pub fn start(dir: &str, path: &str) -> (r: Result<DiffRun, DaemonError>)
        ensures
            match r {
                Ok(d) => !contains(path@, ".."@) && d@ == (DiffRunV {
                    dir: dir@,
                    path: path@,
                    old_side: Seq::empty(),
                    new_side: Seq::empty(),
                    size: 0,
                    phase: DiffPhase::Head,
                }),
                Err(e) => contains(path@, ".."@) && e@ == DaemonErrorV::Session("invalid path"@),
            },
    {
        match check_diff_path(path) {
            Err(e) => Err(e),
            Ok(_) => {
                let d = DiffRun {
                    dir: dir.to_owned(),
                    path: path.to_owned(),
                    old_side: String::new(),
                    new_side: String::new(),
                    size: 0,
                    phase: DiffPhase::Head,
                };
                proof {
                    assert(d@.old_side =~= Seq::<char>::empty());
                    assert(d@.new_side =~= Seq::<char>::empty());
                }
                Ok(d)
            },
        }
    }

    /// The next command and the seconds that it has.
    pub fn next(&self) -> (r: Option<(Vec<String>, u64)>)
        ensures
            match r {
                Some(c) => self@.next() == Some((views(c.0@), c.1)),
                None => self@.next() is None,
            },
    {
        let head = concat(self.dir.as_str(), "/");
        let full = concat(head.as_str(), self.path.as_str());
        let mut argv: Vec<String> = Vec::new();
        match self.phase {
            DiffPhase::Head => {
                let side = concat("HEAD:", self.path.as_str());
                push_text(&mut argv, "show");
                push_text(&mut argv, side.as_str());
                proof {
                    assert(views(argv@) =~= seq!["show"@, side@]);
                }
                Some((session_git_at(self.dir.as_str(), &argv), 30))
            },
            DiffPhase::Size => {
                push_text(&mut argv, "wc");
                push_text(&mut argv, "-c");
                push_text(&mut argv, full.as_str());
                proof {
                    assert(views(argv@) =~= seq!["wc"@, "-c"@, full@]);
                }
                Some((argv, 10))
            },
            DiffPhase::Read => {
                push_text(&mut argv, "cat");
                push_text(&mut argv, full.as_str());
                proof {
                    assert(views(argv@) =~= seq!["cat"@, full@]);
                }
                Some((argv, 30))
            },
            DiffPhase::Ready => None,
        }
    }

    /// Takes the outcome of the command, which is nothing where it could not be
    /// run.
    pub fn reply(self, outcome: Option<ExecResult>) -> (r: DiffRun)
        ensures
            r@ == self@.after(outcome),
    {
        let mut d = self;
        match d.phase {
            DiffPhase::Head => {
                d.old_side = printed_by(outcome);
                d.phase = DiffPhase::Size;
            },
            DiffPhase::Size => {
                let size: usize = match &outcome {
                    Some(r) => if r.exit_code == 0 {
                        read_size(Some(r.stdout.as_str()))
                    } else {
                        read_size(None)
                    },
                    None => read_size(None),
                };
                d.size = size;
                d.phase = if diff_too_large(d.old_side.as_str(), size) {
                    DiffPhase::Ready
                } else {
                    DiffPhase::Read
                };
            },
            DiffPhase::Read => {
                d.new_side = printed_by(outcome);
                d.phase = DiffPhase::Ready;
            },
            DiffPhase::Ready => {},
        }
        d
    }

    /// The diff, once all was read.
    pub fn git_diff(self) -> (r: Option<GitDiff>)
        ensures
            r is Some == (self@.phase == DiffPhase::Ready),
            r matches Some(g) ==> {
                let shown = !g.too_large && !g.binary;
                &&& g.path@ == self@.path
                &&& g.too_large == exceeds(self@.old_side, self@.size)
                &&& g.binary == (!g.too_large && (is_binary(self@.old_side) || is_binary(self@.new_side)))
                &&& shown ==> g.old@ == self@.old_side && g.new@ == self@.new_side
                &&& !shown ==> g.old@.len() == 0 && g.new@.len() == 0
            },
    {
        match self.phase {
            DiffPhase::Ready => {
                let DiffRun { dir, path, old_side, new_side, size, phase } = self;
                Some(git::git_diff(path.as_str(), old_side, new_side, size))
            },
            _ => None,
        }
    }
}

} // verus!
