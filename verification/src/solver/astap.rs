//! Decision logic of the wrapper around ASTAP, the Astrometric STAcking
//! Program: where the command-line solver and its star database live on
//! each host system, and when a run is judged to be looping.
//!
//! Spawning the solver, watching its output and reading the `.wcs`
//! result file are I/O and live outside the core; the rules they follow
//! are the functions here.

use vstd::prelude::*;
use vstd::string::StringExecFns;

verus! {

/// Errors from creating the wrapper; likely when the solver or its
/// star database is not installed where expected.
#[derive(Debug, Clone, PartialEq, Eq)]
pub enum AstapInitError {
    /// The host operating system is not one the solver is shipped for.
    UnsupportedOs(String),
    /// An I/O failure while looking for the solver, as text.
    IoError(String),
    /// The command-line solver executable was not found.
    SolverNotFound,
    /// No star database file was found next to the solver.
    DatabaseNotFound,
}

/// Solver runtime errors.
#[derive(Debug, Clone, PartialEq, Eq)]
pub enum AstapSolverError {
    /// An I/O failure while running the solver or reading its output.
    IoError(String),
    /// A numeric field of the `.wcs` output could not be parsed.
    ParseFloatError(String),
    /// The solver restarted too often and was killed.
    IterationsExceeded,
}

/// Whether the host operating system is one the solver is shipped for.
pub open spec fn os_supported(os: Seq<char>) -> bool {
    os == "linux"@ || os == "macos"@ || os == "windows"@
}

/// The ASTAP solver wrapper: remembers where the command-line solver
/// lives.
pub struct AstapSolver {
    pub cli_path: String,
}

impl AstapSolver {
    /// Wrap a solver executable at the given path.
    pub fn from_cli_path(cli_path: String) -> (r: AstapSolver)
        ensures
            r.cli_path@ == cli_path@,
    {
        AstapSolver { cli_path }
    }

    /// The path of the solver executable.
    pub fn cli_path(&self) -> (r: &String)
        ensures
            r@ == self.cli_path@,
    {
        &self.cli_path
    }

    /// Where the solver and its database live on the given host
    /// operating system, and the extension its executable carries
    /// there; an error for any other system.
    pub fn base_path(os: &String) -> (r: Result<(String, Option<String>), AstapInitError>)
        ensures
            os@ == "linux"@ ==> (r matches Ok(p) && p.0@ == "/opt/astap/"@ && p.1 is None),
            os@ == "macos"@ ==> (r matches Ok(p) && p.0@ == "/usr/local/opt/astap/"@
                && p.1 is None),
            os@ == "windows"@ ==> (r matches Ok(p) && p.0@ == "C:/Program Files/astap/"@ && (
            p.1 matches Some(e) && e@ == ".exe"@)),
            (os@ != "linux"@ && os@ != "macos"@ && os@ != "windows"@) ==> (r matches Err(e) && (
            e matches AstapInitError::UnsupportedOs(s) && s@ == os@)),
    {
        proof {
            reveal_strlit("linux");
            reveal_strlit("macos");
            reveal_strlit("windows");
            assert("linux"@[0] == 'l' && "macos"@[0] == 'm' && "windows"@[0] == 'w');
            assert("linux"@ != "macos"@ && "linux"@ != "windows"@ && "macos"@ != "windows"@);
        }
        if *os == "linux".to_owned() {
            Ok(("/opt/astap/".to_owned(), None))
        } else if *os == "macos".to_owned() {
            Ok(("/usr/local/opt/astap/".to_owned(), None))
        } else if *os == "windows".to_owned() {
            Ok(("C:/Program Files/astap/".to_owned(), Some(".exe".to_owned())))
        } else {
            Err(AstapInitError::UnsupportedOs(os.clone()))
        }
    }

    /// Whether a file extension marks an ASTAP star database file.
    pub fn is_database_extension(ext: &String) -> (r: bool)
        ensures
            r == (ext@ == "290"@ || ext@ == "1476"@ || ext@ == "001"@),
    {
        *ext == "290".to_owned() || *ext == "1476".to_owned() || *ext == "001".to_owned()
    }

    /// The whole wrapper-creation decision, from plain observations:
    /// the host system name, whether the solver executable exists at
    /// its expected place, and whether a star database file was seen
    /// beside it. On success the wrapper carries the executable's full
    /// path.
    pub fn new_checks(os: &String, solver_exists: bool, database_found: bool) -> (r: Result<
        AstapSolver,
        AstapInitError,
    >)
        ensures
            !os_supported(os@) ==> (r matches Err(e) && (e matches AstapInitError::UnsupportedOs(s)
                && s@ == os@)),
            os_supported(os@) && !solver_exists ==> (r matches Err(e)
                && e matches AstapInitError::SolverNotFound),
            os_supported(os@) && solver_exists && !database_found ==> (r matches Err(e)
                && e matches AstapInitError::DatabaseNotFound),
            os_supported(os@) && solver_exists && database_found ==> (r matches Ok(a) && (os@
                == "linux"@ ==> a.cli_path@ == "/opt/astap/"@ + "astap_cli"@) && (os@ == "macos"@
                ==> a.cli_path@ == "/usr/local/opt/astap/"@ + "astap_cli"@) && (os@ == "windows"@
                ==> a.cli_path@ == "C:/Program Files/astap/"@ + "astap_cli"@ + ".exe"@)),
    {
        let bp = match Self::base_path(os) {
            Ok(v) => v,
            Err(e) => {
                return Err(e);
            },
        };
        if !solver_exists {
            return Err(AstapInitError::SolverNotFound);
        }
        if !database_found {
            return Err(AstapInitError::DatabaseNotFound);
        }
        let cli = bp.0.concat("astap_cli");
        let cli = match &bp.1 {
            Some(ext) => cli.concat(ext.as_str()),
            None => cli,
        };
        Ok(AstapSolver { cli_path: cli })
    }

    /// The solver's self-terminating cap: a third solver banner on its
    /// output means the run is looping and must be killed.
    pub fn iterations_exceeded(banner_count: u8) -> (r: bool)
        ensures
            r == (banner_count >= 3),
    {
        banner_count >= 3
    }
}

} // verus!
