//! The arguments handed to the network launch tool to run a local network of
//! nodes, or to run a node that joins a network.
use vstd::prelude::*;

use crate::text::{decimal, owned, push_char, push_decimal, push_str, views};

verus! {

/// The verbosity flag: `-` and one `y` per level.
pub open spec fn verbosity_flag(verbosity: u8) -> Seq<char> {
    "-"@ + Seq::new(verbosity as nat, |i: int| 'y')
}

/// The verbosity flag (see `verbosity_flag`).
pub fn verbosity_arg(verbosity: u8) -> (res: String)
    ensures
        res@ == verbosity_flag(verbosity),
{
    let mut res = owned("-");
    let mut i: u8 = 0;
    while i < verbosity
        invariant
            i <= verbosity,
            res@ == "-"@ + Seq::new(i as nat, |j: int| 'y'),
        decreases verbosity - i,
    {
        push_char(&mut res, 'y');
        proof {
            assert("-"@ + Seq::new((i + 1) as nat, |j: int| 'y') =~= ("-"@ + Seq::new(
                i as nat,
                |j: int| 'y',
            )).push('y'));
        }
        i = i + 1;
    }
    res
}

/// The arguments to launch a local network: the node executable, the folder of
/// the nodes' data, the interval between nodes and their number, then the
/// verbosity flag when verbose, and the IP to launch at, or `--local`.
pub open spec fn run_args_v(
    node_path: Seq<char>,
    nodes_dir: Seq<char>,
    interval: Seq<char>,
    num_of_nodes: Seq<char>,
    verbosity: u8,
    ip: Option<Seq<char>>,
) -> Seq<Seq<char>> {
    seq![
        "sn_launch_tool"@,
        "-v"@,
        "--node-path"@,
        node_path,
        "--nodes-dir"@,
        nodes_dir,
        "--interval"@,
        interval,
        "--num-nodes"@,
        num_of_nodes,
    ] + (if verbosity > 0 {
        seq![verbosity_flag(verbosity)]
    } else {
        Seq::empty()
    }) + match ip {
        Some(i) => seq!["--ip"@, i],
        None => seq!["--local"@],
    }
}

/// The arguments to launch a local network (see `run_args_v`).
pub fn node_run_args(
    node_path: &str,
    nodes_dir: &str,
    interval: &str,
    num_of_nodes: &str,
    verbosity: u8,
    ip: Option<&str>,
) -> (res: Vec<String>)
    ensures
        views(res@) == run_args_v(
            node_path@,
            nodes_dir@,
            interval@,
            num_of_nodes@,
            verbosity,
            match ip {
                Some(i) => Some(i@),
                None => None,
            },
        ),
{
    let mut args: Vec<String> = Vec::new();
    args.push(owned("sn_launch_tool"));
    args.push(owned("-v"));
    args.push(owned("--node-path"));
    args.push(owned(node_path));
    args.push(owned("--nodes-dir"));
    args.push(owned(nodes_dir));
    args.push(owned("--interval"));
    args.push(owned(interval));
    args.push(owned("--num-nodes"));
    args.push(owned(num_of_nodes));
    if verbosity > 0 {
        args.push(verbosity_arg(verbosity));
    }
    match ip {
        Some(i) => {
            args.push(owned("--ip"));
            args.push(owned(i));
        },
        None => {
            args.push(owned("--local"));
        },
    }
    proof {
        assert(views(args@) =~= run_args_v(
            node_path@,
            nodes_dir@,
            interval@,
            num_of_nodes@,
            verbosity,
            match ip {
                Some(i) => Some(i@),
                None => None,
            },
        ));
    }
    args
}

/// The arguments to run a node that joins a network: the node executable, the
/// folder of its data, the maximum capacity when given, the verbosity flag when
/// verbose, and the contacts of the network to join.
pub open spec fn join_args_v(
    node_path: Seq<char>,
    node_data_dir: Seq<char>,
    verbosity: u8,
    contacts: Seq<Seq<char>>,
    max_capacity: Option<u64>,
) -> Seq<Seq<char>> {
    seq!["sn_launch_tool-join"@, "-v"@, "--node-path"@, node_path, "--nodes-dir"@, node_data_dir]
        + match max_capacity {
        Some(mc) => seq!["--max-capacity"@, decimal(mc as nat)],
        None => Seq::empty(),
    } + (if verbosity > 0 {
        seq![verbosity_flag(verbosity)]
    } else {
        Seq::empty()
    }) + seq!["--hard-coded-contacts"@] + contacts
}

/// The arguments to run a node that joins a network (see `join_args_v`).
pub fn node_join_args(
    node_path: &str,
    node_data_dir: &str,
    verbosity: u8,
    contacts: &Vec<String>,
    max_capacity: Option<u64>,
) -> (res: Vec<String>)
    ensures
        views(res@) == join_args_v(node_path@, node_data_dir@, verbosity, views(contacts@), max_capacity),
{
    let mut args: Vec<String> = Vec::new();
    args.push(owned("sn_launch_tool-join"));
    args.push(owned("-v"));
    args.push(owned("--node-path"));
    args.push(owned(node_path));
    args.push(owned("--nodes-dir"));
    args.push(owned(node_data_dir));
    if let Some(mc) = max_capacity {
        args.push(owned("--max-capacity"));
        let mut s = String::new();
        push_decimal(&mut s, mc);
        args.push(s);
    }
    if verbosity > 0 {
        args.push(verbosity_arg(verbosity));
    }
    args.push(owned("--hard-coded-contacts"));
    let ghost head = views(args@);
    let mut i: usize = 0;
    while i < contacts.len()
        invariant
            i <= contacts@.len(),
            args@.len() == head.len() + i,
            views(args@) == head + views(contacts@).take(i as int),
        decreases contacts@.len() - i,
    {
        let ghost before = args@;
        args.push(contacts[i].clone());
        proof {
            assert forall|j: int| 0 <= j < args@.len() implies views(args@)[j] == (head + views(
                contacts@,
            ).take(i + 1))[j] by {
                if j < before.len() {
                    assert(args@[j] == before[j]);
                    assert(views(before)[j] == (head + views(contacts@).take(i as int))[j]);
                }
            }
            assert(views(args@) =~= head + views(contacts@).take(i + 1));
        }
        i = i + 1;
    }
    proof {
        assert(views(contacts@).take(contacts@.len() as int) =~= views(contacts@));
        assert(head =~= seq!["sn_launch_tool-join"@, "-v"@, "--node-path"@, node_path@, "--nodes-dir"@, node_data_dir@]
            + match max_capacity {
            Some(mc) => seq!["--max-capacity"@, decimal(mc as nat)],
            None => Seq::empty(),
        } + (if verbosity > 0 {
            seq![verbosity_flag(verbosity)]
        } else {
            Seq::empty()
        }) + seq!["--hard-coded-contacts"@]);
    }
    args
}

} // verus!
