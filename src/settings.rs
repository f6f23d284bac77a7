//! Build settings: each one from the command line, else from the
//! configuration file's defaults, else unset.

use vstd::prelude::*;

verus! {

/// The options given on the command line.
#[derive(Clone, Debug)]
pub struct CommandLine {
    pub output: Option<String>,
    pub target: Option<String>,
    pub quality: Option<String>,
    pub verbose: bool,
    pub skip_downloads: bool,
    pub skip_services: bool,
    pub skip_guests: bool,
}

/// The defaults of the configuration file.
#[derive(Clone, Debug)]
pub struct Defaults {
    pub arch: Option<String>,
    pub quality: Option<String>,
    pub outfile: Option<String>,
}

/// The settings of one build.
#[derive(Clone, Debug)]
pub struct Settings {
    pub output_filename: Option<String>,
    pub target_arch: Option<String>,
    pub quality: Option<String>,
    pub verbose: bool,
    pub no_downloads: bool,
    pub no_services: bool,
    pub no_guests: bool,
}

pub open spec fn first_of(first: Option<String>, fallback: Option<String>) -> Option<String> {
    if first is Some {
        first
    } else {
        fallback
    }
}

/// The first value that is present: `first`, else `fallback`, else none.
pub fn coalesce(first: Option<String>, fallback: &Option<String>) -> (r: Option<String>)
    ensures
        r == first_of(first, *fallback),
{
    match first {
        Some(v) => Some(v),
        None => match fallback {
            Some(v) => Some(v.clone()),
            None => None,
        },
    }
}

impl Settings {
    /// Settings from the command line, falling back to the configuration's
    /// defaults for the output file, architecture and quality.
    pub fn new(opts: CommandLine, defaults: &Defaults) -> (r: Settings)
        ensures
            r.output_filename == first_of(opts.output, defaults.outfile),
            r.target_arch == first_of(opts.target, defaults.arch),
            r.quality == first_of(opts.quality, defaults.quality),
            r.verbose == opts.verbose,
            r.no_downloads == opts.skip_downloads,
            r.no_services == opts.skip_services,
            r.no_guests == opts.skip_guests,
    {
        Settings {
            output_filename: coalesce(opts.output, &defaults.outfile),
            target_arch: coalesce(opts.target, &defaults.arch),
            quality: coalesce(opts.quality, &defaults.quality),
            verbose: opts.verbose,
            no_downloads: opts.skip_downloads,
            no_services: opts.skip_services,
            no_guests: opts.skip_guests,
        }
    }
}

} // verus!
