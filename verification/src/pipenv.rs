//! Planning of the `pipenv` setup: which commands install the `pipenv`
//! binary at the version that the `Pipfile` pins, and then the project's
//! packages.
use vstd::prelude::*;

verus! {

/// One entry of the `Pipfile`'s `[packages]` table: a package and its
/// version requirement (such as `"==2023.10.24"`).
pub struct Package {
    pub name: String,
    pub version: String,
}

/// The part of the `Pipfile` that the setup reads: its `[packages]` table.
/// Package names are the table's keys; where a name occurs more than once,
/// the first entry counts.
pub struct Pipfile {
    pub packages: Vec<Package>,
}

/// A command to run: a program and its arguments.
pub struct CommandLine {
    pub program: String,
    pub args: Vec<String>,
}

/// Why the setup cannot start.
pub enum SetupError {
    /// The `Pipfile`'s packages do not name `pipenv`.
    PipenvNotInPipfile,
}

impl SetupError {
    /// The error's message.
    pub open spec fn spec_message(&self) -> Seq<char> {
        match self {
            SetupError::PipenvNotInPipfile => "Failed to find 'pipenv' in 'Pipfile' packages."@,
        }
    }

    /// The error's message.
    pub fn message(&self) -> (m: String)
        ensures
            m@ == self.spec_message(),
    {
        match self {
            SetupError::PipenvNotInPipfile => owned("Failed to find 'pipenv' in 'Pipfile' packages."),
        }
    }
}

impl CommandLine {
    /// The command as a program and its arguments.
    pub open spec fn model(&self) -> (Seq<char>, Seq<Seq<char>>) {
        (self.program@, self.args@.map_values(|a: String| a@))
    }
}

impl Pipfile {
    /// Entry `i` is the first one named `name`.
    pub open spec fn is_first_entry(&self, name: Seq<char>, i: int) -> bool {
        &&& 0 <= i < self.packages@.len()
        &&& self.packages@[i].name@ == name
        &&& forall|j: int| 0 <= j < i ==> self.packages@[j].name@ != name
    }

    /// The version requirement that the packages give `name`, if any.
    pub open spec fn version_of(&self, name: Seq<char>) -> Option<Seq<char>> {
        if exists|i: int| self.is_first_entry(name, i) {
            Some(self.packages@[choose|i: int| self.is_first_entry(name, i)].version@)
        } else {
            None
        }
    }
}

/// The command that installs the `pipenv` binary at `version`:
/// `pip3 install "pipenv{version}"`.
pub open spec fn pipenv_install_model(version: Seq<char>) -> (Seq<char>, Seq<Seq<char>>) {
    ("pip3"@, seq!["install"@, "pipenv"@ + version])
}

/// The command that installs the project's packages:
/// `python3 -m pipenv install`, with `--deploy` when running in CI.
pub open spec fn project_install_model(in_ci: bool) -> (Seq<char>, Seq<Seq<char>>) {
    let base = seq!["-m"@, "pipenv"@, "install"@];
    ("python3"@, if in_ci {
        base.push("--deploy"@)
    } else {
        base
    })
}

fn owned(text: &str) -> (s: String)
    ensures
        s@ == text@,
{
    let mut s = String::new();
    s.append(text);
    s
}

proof fn lemma_first_entry_unique(p: &Pipfile, name: Seq<char>, i1: int, i2: int)
    requires
        p.is_first_entry(name, i1),
        p.is_first_entry(name, i2),
    ensures
        i1 == i2,
{
}

/// Looks up the version requirement of the package `pipenv`.
fn find_pipenv(pipfile: &Pipfile) -> (version: Option<&String>)
    ensures
        version matches Some(v) ==> pipfile.version_of("pipenv"@) == Some(v@),
        version is None ==> pipfile.version_of("pipenv"@) is None,
{
    let key = owned("pipenv");
    let mut i: usize = 0;
    while i < pipfile.packages.len()
        invariant
            key@ == "pipenv"@,
            i <= pipfile.packages@.len(),
            forall|j: int| 0 <= j < i ==> pipfile.packages@[j].name@ != key@,
        decreases pipfile.packages.len() - i,
    {
        if pipfile.packages[i].name == key {
            proof {
                assert(pipfile.is_first_entry(key@, i as int));
                let c = choose|k: int| pipfile.is_first_entry(key@, k);
                lemma_first_entry_unique(pipfile, key@, i as int, c);
            }
            return Some(&pipfile.packages[i].version);
        }
        i = i + 1;
    }
    None
}

/// The command that installs the `pipenv` binary at the version that the
/// `Pipfile` pins; fails exactly when the packages do not name `pipenv`.
pub fn install_pipenv_binary(pipfile: &Pipfile) -> (command: Result<CommandLine, SetupError>)
    ensures
        match pipfile.version_of("pipenv"@) {
            Some(version) => command matches Ok(c) && c.model() == pipenv_install_model(version),
            None => command matches Err(SetupError::PipenvNotInPipfile),
        },
{
    match find_pipenv(pipfile) {
        Some(version) => {
            let mut package = owned("pipenv");
            package.append(version.as_str());
            let mut args: Vec<String> = Vec::new();
            args.push(owned("install"));
            args.push(package);
            let command = CommandLine { program: owned("pip3"), args };
            assert(command.model().1 =~= pipenv_install_model(version@).1);
            Ok(command)
        },
        None => Err(SetupError::PipenvNotInPipfile),
    }
}

/// The command that installs the project's packages with `pipenv`; in CI
/// it insists on the lock file (`--deploy`).
pub fn install_project_packages(in_ci: bool) -> (command: CommandLine)
    ensures
        command.model() == project_install_model(in_ci),
{
    let mut args: Vec<String> = Vec::new();
    args.push(owned("-m"));
    args.push(owned("pipenv"));
    args.push(owned("install"));
    if in_ci {
        args.push(owned("--deploy"));
    }
    let command = CommandLine { program: owned("python3"), args };
    assert(command.model().1 =~= project_install_model(in_ci).1);
    command
}

/// The commands that set up `pipenv`, to be run in order: first the
/// `pipenv` binary at the version that the `Pipfile` pins, then the
/// project's packages. Fails, before any command, exactly when the
/// packages do not name `pipenv`.
pub fn setup_pipenv(pipfile: &Pipfile, in_ci: bool) -> (commands: Result<Vec<CommandLine>, SetupError>)
    ensures
        match pipfile.version_of("pipenv"@) {
            Some(version) => commands matches Ok(cs) && cs@.len() == 2 && cs@[0].model()
                == pipenv_install_model(version) && cs@[1].model() == project_install_model(in_ci),
            None => commands matches Err(SetupError::PipenvNotInPipfile),
        },
{
    let first = match install_pipenv_binary(pipfile) {
        Ok(c) => c,
        Err(e) => {
            return Err(e);
        },
    };
    let second = install_project_packages(in_ci);
    let mut commands: Vec<CommandLine> = Vec::new();
    commands.push(first);
    commands.push(second);
    Ok(commands)
}

/// The version of a package is that of the first entry with its name, at
/// whatever position that entry stands.
pub proof fn lemma_version_of_first_entry(p: &Pipfile, name: Seq<char>, i: int)
    requires
        0 <= i < p.packages@.len(),
        p.packages@[i].name@ == name,
        forall|j: int| 0 <= j < i ==> p.packages@[j].name@ != name,
    ensures
        p.version_of(name) == Some(p.packages@[i].version@),
{
    assert(p.is_first_entry(name, i));
    let c = choose|k: int| p.is_first_entry(name, k);
    lemma_first_entry_unique(p, name, i, c);
}

/// A package has a version exactly when some entry carries its name.
pub proof fn lemma_version_of_some_iff_named(p: &Pipfile, name: Seq<char>)
    ensures
        p.version_of(name) is Some <==> exists|i: int|
            0 <= i < p.packages@.len() && #[trigger] p.packages@[i].name@ == name,
{
    if exists|i: int| 0 <= i < p.packages@.len() && #[trigger] p.packages@[i].name@ == name {
        let i = choose|i: int| 0 <= i < p.packages@.len() && #[trigger] p.packages@[i].name@ == name;
        lemma_first_named(p, name, i);
    }
}

proof fn lemma_first_named(p: &Pipfile, name: Seq<char>, i: int)
    requires
        0 <= i < p.packages@.len(),
        p.packages@[i].name@ == name,
    ensures
        exists|f: int| p.is_first_entry(name, f),
    decreases i,
{
    if exists|j: int| 0 <= j < i && #[trigger] p.packages@[j].name@ == name {
        let j = choose|j: int| 0 <= j < i && #[trigger] p.packages@[j].name@ == name;
        lemma_first_named(p, name, j);
    } else {
        assert(p.is_first_entry(name, i));
    }
}

/// The setup commands: `pip3 install pipenv{version}`, where the version is
/// appended as it stands in the `Pipfile`, then `python3 -m pipenv install`,
/// which ends with `--deploy` exactly in CI. A missing `pipenv` is
/// reported as "Failed to find 'pipenv' in 'Pipfile' packages.".
pub proof fn lemma_setup_command_lines(version: Seq<char>, in_ci: bool)
    ensures
        SetupError::PipenvNotInPipfile.spec_message()
            == "Failed to find 'pipenv' in 'Pipfile' packages."@,
        pipenv_install_model(version).0 == "pip3"@,
        pipenv_install_model(version).1 == seq!["install"@, "pipenv"@ + version],
        project_install_model(in_ci).0 == "python3"@,
        project_install_model(in_ci).1.subrange(0, 3) == seq!["-m"@, "pipenv"@, "install"@],
        project_install_model(in_ci).1.len() == if in_ci {
            4int
        } else {
            3int
        },
        in_ci ==> project_install_model(in_ci).1[3] == "--deploy"@,
{
    assert(project_install_model(in_ci).1.subrange(0, 3) =~= seq!["-m"@, "pipenv"@, "install"@]);
}

} // verus!
