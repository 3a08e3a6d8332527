//! The command line of the control tool: its options, and the command
//! that it selects.

use crate::commands::args_view;
use crate::helper::GlobalFlags;
use crate::script::{invocation, spec_invocation, Command};
use vstd::prelude::*;

verus! {

/// The options and words of the control tool's command line.
pub struct Cli {
    /// `-n`: show user ids instead of host names.
    pub numeric: bool,
    /// `-d`: show more of the module's state.
    pub debug: bool,
    /// `-4`: resolve names to IPv4 addresses only.
    pub ipv4: bool,
    /// `-6`: resolve names to IPv6 addresses only.
    pub ipv6: bool,
    /// A command given by its own name.
    pub command: Option<Commands>,
    /// The words after the options when no command is named.
    pub args: Vec<String>,
}

/// A command named on the command line, with its arguments.
pub enum Commands {
    Load { args: Vec<String> },
    Unload { args: Vec<String> },
    Server { args: Vec<String> },
    Client { args: Vec<String> },
    ClientAdd { args: Vec<String> },
    ClientDel { args: Vec<String> },
    ServerAdd { args: Vec<String> },
    ServerDel { args: Vec<String> },
    Status { args: Vec<String> },
    Dump { args: Vec<String> },
    Reaper { args: Vec<String> },
    Version { args: Vec<String> },
    Script { args: Vec<String> },
}

/// The family setting that the options give: `-6` wins over `-4`.
pub open spec fn family_of(ipv4: bool, ipv6: bool) -> Option<Seq<char>> {
    if ipv6 {
        Some("ip6"@)
    } else if ipv4 {
        Some("ip4"@)
    } else {
        None
    }
}

/// The settings that every command consults, as the options give them.
pub fn flags_of(cli: &Cli) -> (f: GlobalFlags)
    ensures
        f.numeric == cli.numeric,
        f.debug == cli.debug,
        match family_of(cli.ipv4, cli.ipv6) {
            Some(t) => f.ip_family matches Some(s) && s@ == t,
            None => f.ip_family is None,
        },
{
    let ip_family = if cli.ipv6 {
        Some(String::from_str("ip6"))
    } else if cli.ipv4 {
        Some(String::from_str("ip4"))
    } else {
        None
    };
    GlobalFlags { numeric: cli.numeric, debug: cli.debug, ip_family }
}

/// The command that a command named by its own name runs (`reaper` runs
/// a script), with its arguments.
pub open spec fn named_command(c: &Commands) -> (Command, Seq<String>) {
    match c {
        Commands::Load { args } => (Command::Load, args@),
        Commands::Unload { args } => (Command::Unload, args@),
        Commands::Server { args } => (Command::Server, args@),
        Commands::Client { args } => (Command::Client, args@),
        Commands::ClientAdd { args } => (Command::ClientAdd, args@),
        Commands::ClientDel { args } => (Command::ClientDel, args@),
        Commands::ServerAdd { args } => (Command::ServerAdd, args@),
        Commands::ServerDel { args } => (Command::ServerDel, args@),
        Commands::Status { args } => (Command::Status, args@),
        Commands::Dump { args } => (Command::Dump, args@),
        Commands::Reaper { args } => (Command::Script, args@),
        Commands::Version { args } => (Command::Version, args@),
        Commands::Script { args } => (Command::Script, args@),
    }
}

/// The command that the command line selects, with its arguments: the
/// command named by its own name if there is one, otherwise the one that
/// the first word names (`status` without words).
pub open spec fn selected_command(cli: &Cli) -> (Command, Seq<Seq<char>>) {
    match &cli.command {
        Some(c) => (named_command(c).0, args_view(named_command(c).1)),
        None => spec_invocation(args_view(cli.args@)),
    }
}

/// The command that the command line selects, with its arguments.
pub fn select_command(cli: &Cli) -> (r: (Command, Vec<String>))
    ensures
        r.0 == selected_command(cli).0,
        args_view(r.1@) == selected_command(cli).1,
{
    match &cli.command {
        Some(c) => {
            let (k, args) = match c {
                Commands::Load { args } => (Command::Load, args),
                Commands::Unload { args } => (Command::Unload, args),
                Commands::Server { args } => (Command::Server, args),
                Commands::Client { args } => (Command::Client, args),
                Commands::ClientAdd { args } => (Command::ClientAdd, args),
                Commands::ClientDel { args } => (Command::ClientDel, args),
                Commands::ServerAdd { args } => (Command::ServerAdd, args),
                Commands::ServerDel { args } => (Command::ServerDel, args),
                Commands::Status { args } => (Command::Status, args),
                Commands::Dump { args } => (Command::Dump, args),
                Commands::Reaper { args } => (Command::Script, args),
                Commands::Version { args } => (Command::Version, args),
                Commands::Script { args } => (Command::Script, args),
            };
            (k, args.clone())
        },
        None => invocation(cli.args.as_slice()),
    }
}

} // verus!
