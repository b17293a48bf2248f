//! The command line of the tools, as plain values: the commands and their
//! arguments, and the few decisions taken on them before a command runs.
use vstd::prelude::*;

use crate::text::{owned, views};

verus! {

/// Subcommands that manage keys.
#[derive(Debug, Clone, PartialEq)]
pub enum KeySubCommands {
    /// Add a key to another document.
    Add { link: String, name: String },
    /// Create a new key pair.
    Create { anon: String, name: String, preload: String },
}

/// Subcommands that manage wallets.
#[derive(Debug, Clone, PartialEq)]
pub enum WalletSubCommands {
    /// Add a wallet to another document.
    Add { link: String, name: String },
    /// Query a wallet's balance.
    Balance,
    /// Check the status of a transaction.
    CheckTx,
    /// Create a new wallet.
    Create,
    /// Move all coins within a wallet to a given balance.
    Sweep { from: String, to: String },
    /// Transfer coins.
    Transfer { amount: String, from: String, to: String },
}

/// Subcommands that manage public names.
#[derive(Debug, Clone, PartialEq)]
pub enum NrsSubCommands {
    /// Add a sub name to a public name.
    Add { name: String, link: Option<String>, default: bool },
    /// Create a new public name.
    Create { name: String, link: Option<String> },
    /// Remove a sub name from a public name.
    Remove { name: String },
}

/// The top level commands.
#[derive(Debug, Clone, PartialEq)]
pub enum SubCommands {
    Container { invite: String },
    Auth { req: String },
    Cat { invite: String },
    Files { invite: String },
    Pns { invite: String },
    Keys { cmd: Option<KeySubCommands> },
    Wallet { cmd: Option<WalletSubCommands> },
    SafeId { invite: String },
}

/// The arguments of the command line.
#[derive(Debug, Clone, PartialEq)]
pub struct CmdArgs {
    /// The safe:// address of the target data.
    pub target: String,
    /// Whether the account's root container is addressed.
    pub root: bool,
    pub cmd: Option<SubCommands>,
    /// Output data serialisation.
    pub output: String,
    /// Print human readable responses.
    pub human: bool,
    /// Increase output verbosity.
    pub verbose: bool,
    /// A query of the output.
    pub query: String,
    /// Dry run of the command: no data written, no coins spent.
    pub dry: bool,
}

/// The arguments of the `cat` command.
#[derive(Debug, Clone, PartialEq)]
pub struct CatCommands {
    /// The safe:// location to retrieve.
    pub location: Option<String>,
    /// Renders file output as hex.
    pub hexdump: bool,
}

/// The serialisation of a command's output.
#[derive(Debug, Clone, Copy, PartialEq, Eq, Structural)]
pub enum OutputFmt {
    Pretty,
    Json,
    JsonCompact,
    Yaml,
}

/// The serialisation of the output: JSON when `--json` is given, otherwise the
/// format asked for with `--output`, or the human-readable one.
pub fn output_format(output_json: bool, output_fmt: Option<OutputFmt>) -> (res: OutputFmt)
    ensures
        res == (if output_json {
            OutputFmt::Json
        } else {
            match output_fmt {
                Some(f) => f,
                None => OutputFmt::Pretty,
            }
        }),
{
    if output_json {
        OutputFmt::Json
    } else {
        match output_fmt {
            Some(f) => f,
            None => OutputFmt::Pretty,
        }
    }
}

/// The arguments that a command typed in the interactive shell stands for: those
/// of the command line `safe <subcommand> <args...>`.
pub fn mimic_cli_args(subcommand: &str, args: &Vec<String>) -> (res: Vec<String>)
    ensures
        views(res@) == seq!["safe"@, subcommand@] + views(args@),
{
    let mut res: Vec<String> = Vec::new();
    res.push(owned("safe"));
    res.push(owned(subcommand));
    let ghost head = views(res@);
    let mut i: usize = 0;
    while i < args.len()
        invariant
            i <= args@.len(),
            res@.len() == head.len() + i,
            head == seq!["safe"@, subcommand@],
            views(res@) == head + views(args@).take(i as int),
        decreases args@.len() - i,
    {
        let ghost before = res@;
        res.push(args[i].clone());
        proof {
            assert forall|j: int| 0 <= j < res@.len() implies views(res@)[j] == (head + views(args@).take(
                i + 1,
            ))[j] by {
                if j < before.len() {
                    assert(res@[j] == before[j]);
                    assert(views(before)[j] == (head + views(args@).take(i as int))[j]);
                }
            }
            assert(views(res@) =~= head + views(args@).take(i + 1));
        }
        i = i + 1;
    }
    proof {
        assert(views(args@).take(args@.len() as int) =~= views(args@));
    }
    res
}

} // verus!
