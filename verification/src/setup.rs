//! The Git commands that set up a new project's repository, one at a time:
//! which command comes next, and what its outcome changes.

use vstd::prelude::*;

verus! {

/// Where the repository setup stands.
pub enum GitStage {
    /// `git init -b main` is next.
    Init,
    /// `git remote add origin <remote>` is next.
    Remote,
    /// `git add --all` is next.
    AddAll,
    /// `git commit -m "Initial commit"` is next.
    Commit,
    /// Nothing is left to run.
    Done,
}

/// The setup of a new project's repository.
pub struct GitSetup {
    pub stage: GitStage,
    pub remote: Option<String>,
    pub create_initial_commit: bool,
    /// The remote, once `origin` points to it.
    pub configured_remote: Option<String>,
    /// What could not be done, though the project was created.
    pub warnings: Vec<String>,
}

/// The arguments of the Git command run at `stage`.
pub open spec fn command_spec(stage: GitStage, remote: Option<String>) -> Option<Seq<Seq<char>>> {
    match stage {
        GitStage::Init => Some(seq!["init"@, "-b"@, "main"@]),
        GitStage::Remote => Some(seq!["remote"@, "add"@, "origin"@, remote->0@]),
        GitStage::AddAll => Some(seq!["add"@, "--all"@]),
        GitStage::Commit => Some(seq!["commit"@, "-m"@, "Initial commit"@]),
        GitStage::Done => None,
    }
}

/// How many more commands can follow at `stage`, at most.
pub open spec fn steps_left(stage: GitStage) -> nat {
    match stage {
        GitStage::Init => 4,
        GitStage::Remote => 3,
        GitStage::AddAll => 2,
        GitStage::Commit => 1,
        GitStage::Done => 0,
    }
}

/// The stage after the repository was created.
pub open spec fn after_init(remote: Option<String>, create_initial_commit: bool) -> GitStage {
    if remote is Some {
        GitStage::Remote
    } else if create_initial_commit {
        GitStage::AddAll
    } else {
        GitStage::Done
    }
}

/// The stage after the remote was configured (or failed to be).
pub open spec fn after_remote(create_initial_commit: bool) -> GitStage {
    if create_initial_commit {
        GitStage::AddAll
    } else {
        GitStage::Done
    }
}

fn stage_after_init(remote: &Option<String>, create_initial_commit: bool) -> (s: GitStage)
    ensures
        s == after_init(*remote, create_initial_commit),
{
    if remote.is_some() {
        GitStage::Remote
    } else if create_initial_commit {
        GitStage::AddAll
    } else {
        GitStage::Done
    }
}

impl GitSetup {
    /// A setup that first creates the repository, then points `origin` to
    /// `remote` when there is one, then makes the initial commit when asked.
    pub fn new(remote: Option<String>, create_initial_commit: bool) -> (setup: GitSetup)
        ensures
            setup.stage == GitStage::Init,
            setup.remote == remote,
            setup.create_initial_commit == create_initial_commit,
            setup.configured_remote is None,
            setup.warnings@.len() == 0,
    {
        GitSetup {
            stage: GitStage::Init,
            remote,
            create_initial_commit,
            configured_remote: None,
            warnings: Vec::new(),
        }
    }

    /// The arguments of the next Git command, or `None` when the setup is
    /// done.
    pub fn command(&self) -> (args: Option<Vec<String>>)
        requires
            self.stage is Remote ==> self.remote is Some,
        ensures
            match args {
                Some(a) => command_spec(self.stage, self.remote) == Some(
                    a@.map_values(|s: String| s@),
                ),
                None => command_spec(self.stage, self.remote) is None,
            },
    {
        match self.stage {
            GitStage::Init => {
                let init = String::from_str("init");
                let branch_flag = String::from_str("-b");
                let branch = String::from_str("main");
                let args = vec![init, branch_flag, branch];
                Some(args)
            },
            GitStage::Remote => {
                let remote = match &self.remote {
                    Some(remote) => remote.clone(),
                    None => String::new(),
                };
                Some(
                    vec![
                        String::from_str("remote"),
                        String::from_str("add"),
                        String::from_str("origin"),
                        remote,
                    ],
                )
            },
            GitStage::AddAll => Some(vec![String::from_str("add"), String::from_str("--all")]),
            GitStage::Commit => Some(
                vec![
                    String::from_str("commit"),
                    String::from_str("-m"),
                    String::from_str("Initial commit"),
                ],
            ),
            GitStage::Done => None,
        }
    }

    /// Records the outcome of the command just run. A failure to create the
    /// repository fails the whole creation; a failure to configure `origin`
    /// or to commit becomes a warning and the setup goes on (the commit is
    /// skipped when staging fails).
    pub fn record(&mut self, result: Result<(), String>) -> (r: Result<(), String>)
        requires
            !(old(self).stage is Done),
            old(self).stage is Remote ==> old(self).remote is Some,
        ensures
            final(self).remote == old(self).remote,
            final(self).create_initial_commit == old(self).create_initial_commit,
            final(self).stage is Remote ==> final(self).remote is Some,
            steps_left(final(self).stage) < steps_left(old(self).stage),
            match (old(self).stage, result) {
                (GitStage::Init, Err(message)) => {
                    &&& r matches Err(m) && m@ == message@
                    &&& final(self).stage == GitStage::Done
                    &&& final(self).warnings == old(self).warnings
                    &&& final(self).configured_remote == old(self).configured_remote
                },
                (GitStage::Init, Ok(())) => {
                    &&& r is Ok
                    &&& final(self).stage == after_init(old(self).remote, old(self).create_initial_commit)
                    &&& final(self).warnings == old(self).warnings
                    &&& final(self).configured_remote == old(self).configured_remote
                },
                (GitStage::Remote, Ok(())) => {
                    &&& r is Ok
                    &&& final(self).stage == after_remote(old(self).create_initial_commit)
                    &&& final(self).configured_remote == old(self).remote
                    &&& final(self).warnings == old(self).warnings
                },
                (GitStage::Remote, Err(message)) => {
                    &&& r is Ok
                    &&& final(self).stage == after_remote(old(self).create_initial_commit)
                    &&& final(self).configured_remote == old(self).configured_remote
                    &&& final(self).warnings@.len() == old(self).warnings@.len() + 1
                    &&& final(self).warnings@.take(old(self).warnings@.len() as int) == old(self).warnings@
                    &&& final(self).warnings@.last()@ == "Could not configure origin: "@ + message@
                },
                (GitStage::AddAll, Ok(())) => {
                    &&& r is Ok
                    &&& final(self).stage == GitStage::Commit
                    &&& final(self).configured_remote == old(self).configured_remote
                    &&& final(self).warnings == old(self).warnings
                },
                (GitStage::AddAll, Err(message)) | (GitStage::Commit, Err(message)) => {
                    &&& r is Ok
                    &&& final(self).stage == GitStage::Done
                    &&& final(self).configured_remote == old(self).configured_remote
                    &&& final(self).warnings@.len() == old(self).warnings@.len() + 1
                    &&& final(self).warnings@.take(old(self).warnings@.len() as int) == old(self).warnings@
                    &&& final(self).warnings@.last()@ == "Could not create the initial commit: "@
                        + message@
                },
                (GitStage::Commit, Ok(())) => {
                    &&& r is Ok
                    &&& final(self).stage == GitStage::Done
                    &&& final(self).configured_remote == old(self).configured_remote
                    &&& final(self).warnings == old(self).warnings
                },
                (GitStage::Done, _) => true,
            },
    {
        match self.stage {
            GitStage::Init => match result {
                Ok(()) => {
                    self.stage = stage_after_init(&self.remote, self.create_initial_commit);
                    Ok(())
                },
                Err(message) => {
                    self.stage = GitStage::Done;
                    Err(message)
                },
            },
            GitStage::Remote => {
                match result {
                    Ok(()) => {
                        self.configured_remote = self.remote.clone();
                    },
                    Err(message) => {
                        let mut warning = String::from_str("Could not configure origin: ");
                        warning.append(message.as_str());
                        let ghost before = self.warnings@;
                        self.warnings.push(warning);
                        proof {
                            assert(self.warnings@.take(before.len() as int) =~= before);
                        }
                    },
                }
                self.stage = if self.create_initial_commit {
                    GitStage::AddAll
                } else {
                    GitStage::Done
                };
                Ok(())
            },
            GitStage::AddAll | GitStage::Commit => {
                match result {
                    Ok(()) => {
                        self.stage = match self.stage {
                            GitStage::AddAll => GitStage::Commit,
                            _ => GitStage::Done,
                        };
                    },
                    Err(message) => {
                        let mut warning = String::from_str("Could not create the initial commit: ");
                        warning.append(message.as_str());
                        let ghost before = self.warnings@;
                        self.warnings.push(warning);
                        proof {
                            assert(self.warnings@.take(before.len() as int) =~= before);
                        }
                        self.stage = GitStage::Done;
                    },
                }
                Ok(())
            },
            GitStage::Done => Ok(()),
        }
    }
}


/// The commands come in this order: `git init -b main` first; then
/// `git remote add origin <remote>` exactly when a remote is given; then
/// `git add --all` and `git commit -m "Initial commit"` exactly when the
/// initial commit is asked for; then nothing.
pub proof fn git_commands_in_order(remote: Option<String>, commit: bool)
    ensures
        command_spec(GitStage::Init, remote) == Some(seq!["init"@, "-b"@, "main"@]),
        (after_init(remote, commit) is Remote) <==> remote is Some,
        remote is Some ==> command_spec(GitStage::Remote, remote) == Some(
            seq!["remote"@, "add"@, "origin"@, remote->0@],
        ),
        remote is None ==> ((after_init(remote, commit) is AddAll) <==> commit),
        remote is None && !commit ==> after_init(remote, commit) is Done,
        (after_remote(commit) is AddAll) <==> commit,
        !commit ==> after_remote(commit) is Done,
        command_spec(GitStage::AddAll, remote) == Some(seq!["add"@, "--all"@]),
        command_spec(GitStage::Commit, remote) == Some(seq!["commit"@, "-m"@, "Initial commit"@]),
        command_spec(GitStage::Done, remote) is None,
{
}

} // verus!
