//! The command surface: plain option records, one per subcommand.  The
//! actual argument parsing and terminal handling live outside this
//! crate; these types carry the decisions the logic needs.

use vstd::prelude::*;

use crate::plan::BumpKind;

verus! {

/// Options of the status listing.
#[derive(Debug, Clone)]
pub struct Status {
    /// Only crates that are not on the registry.
    pub missing: bool,
    /// Only crates not owned by this project's account.
    pub external: bool,
    /// Only crates whose version differs from the registry's.
    pub version: bool,
    /// Only print crate names.
    pub quiet: bool,
}

/// Options of the claim run.
#[derive(Debug, Clone)]
pub struct Claim {
    /// Don't actually claim crates.
    pub dry_run: bool,
}

/// Options of the workspace query.
#[derive(Debug, Clone)]
pub struct Workspace {
    /// Only print crate names.
    pub quiet: bool,
    /// Print the packages that own the given files.
    pub owns: bool,
    /// How many times the paths flag was given.
    pub paths: u8,
    /// Targets to act on.
    pub targets: Vec<String>,
}

/// Options of the compatibility comparison.
#[derive(Debug, Clone)]
pub struct Semver {
    pub paths: u8,
    pub quiet: bool,
    pub major: bool,
    pub verbose: bool,
    pub since: Option<String>,
    pub toolchain: String,
    pub minimum_nightly_rust_version: bool,
    pub crates: Vec<String>,
}

/// Options of the change-document check.
#[derive(Debug, Clone)]
pub struct Prdoc {
    pub no_deps: bool,
    pub paths: u8,
    pub major: bool,
    pub verbose: bool,
    pub quiet: bool,
    pub since: Option<String>,
    pub validate: bool,
    pub prdoc_path: String,
    pub toolchain: String,
    pub max_bump: Option<BumpKind>,
    pub crates: Vec<String>,
}

/// Options of the change listing.
#[derive(Debug, Clone)]
pub struct Changed {
    pub paths: u8,
    pub quiet: bool,
    pub verbose: bool,
    pub no_deps: bool,
    pub manifests: bool,
    /// The reference to look for changes from.
    pub from: String,
    /// The reference to look for changes to.
    pub to: String,
}

/// Options of the planning run.
#[derive(Debug, Clone)]
pub struct Plan {
    pub description: Option<String>,
    pub pre: Option<String>,
    pub all: bool,
    pub since: Option<String>,
    pub prdoc: Option<String>,
    pub skip_verify: bool,
    pub new: bool,
    pub skip_check: bool,
    pub patch: bool,
    pub hold_version: bool,
    pub crates: Vec<String>,
}

/// Options of the apply run.
#[derive(Debug, Clone)]
pub struct Apply {
    /// Don't actually publish crates.
    pub dry_run: bool,
    /// Publish the crates.
    pub publish: bool,
    /// Allow dirty working directories to be published.
    pub allow_dirty: bool,
    /// Don't verify packages before publish.
    pub skip_verify: bool,
    /// Only print what would be published.
    pub print: bool,
    /// Worker-pool size inside one batch.
    pub max_concurrent: usize,
    /// Target number of packages per batch.
    pub batch_size: usize,
    /// Seconds to wait between batches.
    pub batch_delay: u64,
    /// How many batches may be dispatched concurrently; zero means
    /// strictly sequential batches.
    pub parallel_batches: usize,
    /// Publish against the staging registry.
    pub staging: bool,
    /// Publish against an explicitly named registry.
    pub registry_url: Option<String>,
    /// Seconds between availability checks after a publish.
    pub poll_interval: u64,
    /// Seconds after which the availability poller gives up.
    pub poll_timeout: u64,
}

impl Default for Apply {
    /// The apply options as they stand with no flag given: nothing is
    /// published or printed, batches of ten with three workers and no
    /// inter-batch delay, and availability polling every five seconds
    /// for up to a minute.
    fn default() -> (r: Apply)
        ensures
            !r.dry_run && !r.publish && !r.allow_dirty && !r.skip_verify && !r.print,
            r.max_concurrent == 3,
            r.batch_size == 10,
            r.batch_delay == 0,
            r.parallel_batches == 0,
            !r.staging,
            r.registry_url is None,
            r.poll_interval == 5,
            r.poll_timeout == 60,
    {
        Apply {
            dry_run: false,
            publish: false,
            allow_dirty: false,
            skip_verify: false,
            print: false,
            max_concurrent: 3,
            batch_size: 10,
            batch_delay: 0,
            parallel_batches: 0,
            staging: false,
            registry_url: None,
            poll_interval: 5,
            poll_timeout: 60,
        }
    }
}

/// Options of the pre-publish check.
#[derive(Debug, Clone)]
pub struct Check {
    /// Don't exit nonzero on errors that don't prevent publishing.
    pub allow_nonfatal: bool,
    /// Only print crate names.
    pub quiet: bool,
    /// How many times the paths flag was given.
    pub paths: u8,
    /// Don't check ownership status.
    pub no_check_owner: bool,
    /// Don't exit nonzero when a crate is unpublished.
    pub allow_unpublished: bool,
    /// Recursively find what depends on unpublished crates.
    pub recursive: bool,
}

/// Options of the config command.
#[derive(Debug, Clone)]
pub struct Config {
    /// Apply the changes the config file asks for.
    pub apply: bool,
}

/// The subcommands.
#[derive(Debug, Clone)]
pub enum Command {
    Status(Status),
    Claim(Claim),
    Semver(Semver),
    Prdoc(Prdoc),
    Changed(Changed),
    Plan(Plan),
    Apply(Apply),
    Check(Check),
    Config(Config),
    Workspace(Workspace),
}

} // verus!
