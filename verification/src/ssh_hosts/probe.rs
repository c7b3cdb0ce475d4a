//! Probing a host: whether it answers, and which engines it has.
use crate::engine::command;
use crate::engine::command::CommandLine;
use crate::engine::command::CommandView;
use crate::engine::wsl_transport;
use crate::number;
use crate::order;
use crate::split;
use crate::table;
use crate::table::Table;
use crate::text;
#[allow(unused_imports)]
use vstd::utf8::*;
use vstd::prelude::*;

verus! {

/// How long a probe may take, in seconds.
pub const PROBE_TIMEOUT_SECS: u64 = 30;

/// A host that was enrolled.
#[derive(Debug, Clone)]
pub struct SshHost {
    pub id: String,
    pub host: String,
    pub port: u16,
    pub user: String,
    /// Where its engine binaries are, by name.
    pub engines: Table,
    /// Whether the last probe reached it.
    pub last_ok: bool,
    /// When that was.
    pub last_probe: Option<String>,
}

/// What a probe came to.
#[derive(Debug, Clone)]
pub struct SshProbe {
    pub reachable: bool,
    /// Where engine binaries are on the host, by name.
    pub engines: Table,
    pub error: Option<String>,
}

/// What an [`SshProbe`] says.
#[verifier::ext_equal]
pub struct ProbeView {
    pub reachable: bool,
    pub engines: Map<Seq<char>, Seq<char>>,
    pub error: Option<Seq<char>>,
}

impl View for SshProbe {
    type V = ProbeView;

    open spec fn view(&self) -> ProbeView {
        ProbeView {
            reachable: self.reachable,
            engines: self.engines@,
            error: command::maybe(self.error),
        }
    }
}

/// An engine, and the name of its binary. Engines can share a binary.
#[derive(Debug)]
pub struct EngineBinary {
    pub id: String,
    pub bin: String,
}

// ---------------------------------------------------------------------------
// Addresses
// ---------------------------------------------------------------------------
/// What is wrong with an address, if anything is.
pub open spec fn address_error(host: Seq<char>, user: Seq<char>, port: u16) -> Option<Seq<char>> {
    if port == 0 {
        Some("port must be 1-65535"@)
    } else if !wsl_transport::safe_host(host) {
        Some("invalid host"@)
    } else if !wsl_transport::safe_user(user) {
        Some("invalid user"@)
    } else {
        None
    }
}

/// Checks an address before it goes on an `ssh` command line.
pub fn validate(host: &str, user: &str, port: u16) -> (r: Result<(), String>)
    ensures
        match r {
            Ok(_) => address_error(host@, user@, port) is None,
            Err(message) => address_error(host@, user@, port) == Some(message@),
        },
{
    if port == 0 {
        return Err("port must be 1-65535".to_owned());
    }
    if !wsl_transport::is_safe_host(host) {
        return Err("invalid host".to_owned());
    }
    if !wsl_transport::is_safe_user(user) {
        return Err("invalid user".to_owned());
    }
    Ok(())
}

// ---------------------------------------------------------------------------
// The call
// ---------------------------------------------------------------------------
/// The names of the binaries of some engines.
pub open spec fn bins(engines: Seq<EngineBinary>) -> Seq<Seq<char>> {
    engines.map_values(|e: EngineBinary| e.bin@)
}

/// The script that asks for some binaries: it prints a mark, and then a line for each binary, with
/// its name, a colon, and its path where it has one.
pub open spec fn script_for(names: Seq<Seq<char>>) -> Seq<char> {
    "echo __CCGUI_OK__\nfor b in "@ + split::joined(names, " "@)
        + "; do printf '%s:' \"$b\"; command -v \"$b\" 2>/dev/null || echo; done\n"@
}

/// The script that asks for the binaries of some engines, each once, in order.
pub open spec fn probe_text(engines: Seq<EngineBinary>) -> Seq<char> {
    script_for(order::deduped(order::sorted(bins(engines))))
}

/// The script that asks for the binaries of `engines`.
pub fn probe_script(engines: &Vec<EngineBinary>) -> (r: String)
    ensures
        r@ == probe_text(engines@),
{
    let mut names: Vec<String> = Vec::new();
    let mut i: usize = 0;
    while i < engines.len()
        invariant
            i <= engines@.len(),
            split::views(names@) == bins(engines@).take(i as int),
        decreases engines.len() - i,
    {
        command::push_arg(&mut names, engines[i].bin.as_str());
        proof {
            assert(bins(engines@).take(i + 1) =~= bins(engines@).take(i as int).push(
                engines@[i as int].bin@,
            ));
        }
        i = i + 1;
    }
    proof {
        assert(bins(engines@).take(i as int) =~= bins(engines@));
    }
    let list: Vec<String> = order::dedup(&order::sort(&names));
    let mut r: String = "echo __CCGUI_OK__\nfor b in ".to_owned();
    r.append(split::join(&list, " ").as_str());
    r.append("; do printf '%s:' \"$b\"; command -v \"$b\" 2>/dev/null || echo; done\n");
    r
}

/// The call that probes a host.
pub open spec fn probe_call(
    host: Seq<char>,
    user: Seq<char>,
    port: u16,
    engines: Seq<EngineBinary>,
) -> CommandView {
    CommandView {
        program: "ssh"@,
        args: seq![
            "-o"@,
            "BatchMode=yes"@,
            "-o"@,
            "StrictHostKeyChecking=accept-new"@,
            "-o"@,
            "ConnectTimeout=10"@,
            "-p"@,
            number::decimal(port as nat),
            "--"@,
            user + "@"@ + host,
            probe_text(engines),
        ],
        envs: seq![],
    }
}

/// The call that probes a host.
fn probe_command(host: &str, user: &str, port: u16, engines: &Vec<EngineBinary>) -> (r: CommandLine)
    ensures
        r@ == probe_call(host@, user@, port, engines@),
{
    let mut target: String = user.to_owned();
    target.append("@");
    target.append(host);
    let mut args: Vec<String> = Vec::new();
    command::push_arg(&mut args, "-o");
    command::push_arg(&mut args, "BatchMode=yes");
    command::push_arg(&mut args, "-o");
    command::push_arg(&mut args, "StrictHostKeyChecking=accept-new");
    command::push_arg(&mut args, "-o");
    command::push_arg(&mut args, "ConnectTimeout=10");
    command::push_arg(&mut args, "-p");
    command::push_arg(&mut args, number::natural_text(port as u64).as_str());
    command::push_arg(&mut args, "--");
    command::push_arg(&mut args, target.as_str());
    command::push_arg(&mut args, probe_script(engines).as_str());
    let r: CommandLine = CommandLine { program: "ssh".to_owned(), args, envs: Vec::new() };
    proof {
        assert(r@ =~= probe_call(host@, user@, port, engines@));
    }
    r
}

/// A probe that failed with a message.
pub open spec fn failed(message: Seq<char>) -> ProbeView {
    ProbeView { reachable: false, engines: Map::empty(), error: Some(message) }
}

/// A probe that failed with `message`.
fn fail(message: String) -> (r: SshProbe)
    ensures
        r@ == failed(message@),
{
    SshProbe { reachable: false, engines: Table::new(), error: Some(message) }
}

/// How to probe a host: the call to make, or the result where the address is refused.
pub fn run_probe(host: &str, user: &str, port: u16, engines: &Vec<EngineBinary>) -> (r: Result<
    CommandLine,
    SshProbe,
>)
    ensures
        match r {
            Ok(call) => {
                &&& address_error(host@, user@, port) is None
                &&& call@ == probe_call(host@, user@, port, engines@)
            },
            Err(probe) => {
                &&& address_error(host@, user@, port) matches Some(message)
                &&& probe@ == failed(message)
            },
        },
{
    match validate(host, user, port) {
        Ok(_) => Ok(probe_command(host, user, port, engines)),
        Err(message) => Err(fail(message)),
    }
}

/// How to probe a host whose address was typed in: the white space around its parts does not
/// count.
pub fn ssh_host_probe(host: &str, user: &str, port: u16, engines: &Vec<EngineBinary>) -> (r: Result<
    CommandLine,
    SshProbe,
>)
    ensures
        match r {
            Ok(call) => {
                &&& address_error(text::trim(host@), text::trim(user@), port) is None
                &&& call@ == probe_call(text::trim(host@), text::trim(user@), port, engines@)
            },
            Err(probe) => {
                &&& address_error(text::trim(host@), text::trim(user@), port) matches Some(message)
                &&& probe@ == failed(message)
            },
        },
{
    run_probe(text::trimmed(host), text::trimmed(user), port, engines)
}

// ---------------------------------------------------------------------------
// The answer
// ---------------------------------------------------------------------------
/// The mark that tells that the host answered.
pub open spec fn mark() -> Seq<char> {
    "__CCGUI_OK__"@
}

/// The binary and the path that a line reports, where it reports one.
pub open spec fn reported(line: Seq<char>) -> Seq<(Seq<char>, Seq<char>)> {
    let rest = text::trim(line);
    if rest == mark() {
        seq![]
    } else {
        match split::halves(rest, ':') {
            Some((bin, path)) => if bin.len() > 0 && !text::blank(path) {
                seq![(bin, text::trim(path))]
            } else {
                seq![]
            },
            None => seq![],
        }
    }
}

/// The binaries and paths that some lines report.
pub open spec fn all_reported(lines: Seq<Seq<char>>) -> Seq<(Seq<char>, Seq<char>)>
    decreases lines.len(),
{
    if lines.len() == 0 {
        seq![]
    } else {
        all_reported(lines.drop_last()) + reported(lines.last())
    }
}

/// One of the lines is the mark.
pub open spec fn marked(lines: Seq<Seq<char>>) -> bool {
    exists|i: int| 0 <= i < lines.len() && text::trim(#[trigger] lines[i]) == mark()
}

/// The binaries and paths that the output of a probe reports. Of a binary that is reported twice
/// the last path counts.
pub open spec fn engines_in(output: Seq<char>) -> Map<Seq<char>, Seq<char>> {
    table::pairs_map(all_reported(split::lines(output)))
}

/// Adding one report to a list of them adds it to their map.
proof fn lemma_report(pairs: Seq<(Seq<char>, Seq<char>)>, bin: Seq<char>, path: Seq<char>)
    ensures
        table::pairs_map(pairs + seq![(bin, path)]) == table::pairs_map(pairs).insert(bin, path),
{
    assert((pairs + seq![(bin, path)]).drop_last() =~= pairs);
}

/// Adds what a line reports.
fn record_line(engines: &mut Table, line: &str, Ghost(pairs): Ghost<Seq<(Seq<char>, Seq<char>)>>)
    requires
        old(engines)@ == table::pairs_map(pairs),
        text::trim(line@) == line@,
        line@ != mark(),
    ensures
        final(engines)@ == table::pairs_map(pairs + reported(line@)),
{
    proof {
        assert(pairs + seq![] =~= pairs);
    }
    if let Some((bin, path)) = split::split_once(line, ':') {
        let path: &str = text::trimmed(path.as_str());
        if !bin.as_str().is_empty() && !path.is_empty() {
            proof {
                lemma_report(pairs, bin@, path@);
            }
            engines.insert(bin, path.to_owned());
        }
    }
}

/// Whether the output of a probe has the mark, and which binaries and paths it reports.
pub fn parse_probe_output(out: &str) -> (r: (bool, Table))
    ensures
        r.0 == marked(split::lines(out@)),
        r.1@ == engines_in(out@),
{
    let list: Vec<String> = split::lines_of(out);
    let ghost all = split::views(list@);
    let mut engines: Table = Table::new();
    let mut reachable: bool = false;
    let mut i: usize = 0;
    while i < list.len()
        invariant
            i <= list@.len(),
            all == split::views(list@),
            reachable == marked(all.take(i as int)),
            engines@ == table::pairs_map(all_reported(all.take(i as int))),
        decreases list.len() - i,
    {
        let line: &str = text::trimmed(list[i].as_str());
        let ghost seen = all.take(i as int);
        let ghost next = all.take(i + 1);
        proof {
            assert(next.drop_last() =~= seen);
            assert(next.last() == list@[i as int]@);
            text::lemma_trim_twice(list@[i as int]@);
            if marked(seen) {
                let k = choose|k: int|
                    0 <= k < seen.len() && text::trim(#[trigger] seen[k]) == mark();
                assert(text::trim(next[k]) == mark());
            }
            if marked(next) {
                let k = choose|k: int|
                    0 <= k < next.len() && text::trim(#[trigger] next[k]) == mark();
                if k < i {
                    assert(text::trim(seen[k]) == mark());
                }
            }
        }
        if text::same(line, "__CCGUI_OK__") {
            reachable = true;
            proof {
                assert(text::trim(next[i as int]) == mark());
                assert(all_reported(seen) + seq![] =~= all_reported(seen));
            }
        } else {
            record_line(&mut engines, line, Ghost(all_reported(seen)));
        }
        i = i + 1;
    }
    proof {
        assert(all.take(i as int) =~= all);
    }
    (reachable, engines)
}

/// How the call that probes a host ended.
#[derive(Debug)]
pub enum ProbeOutcome {
    /// It could not be run.
    NotStarted(String),
    /// It did not end in time.
    TimedOut,
    /// It ended.
    Ended { success: bool, stdout: Vec<u8> },
}

/// What a probe whose output is a text came to.
pub open spec fn answer(output: Seq<char>) -> ProbeView {
    ProbeView {
        reachable: marked(split::lines(output)),
        engines: engines_in(output),
        error: if marked(split::lines(output)) {
            None
        } else {
            Some("no probe marker in output"@)
        },
    }
}

/// What a probe came to.
pub open spec fn probe_of(outcome: ProbeOutcome) -> ProbeView {
    match outcome {
        ProbeOutcome::NotStarted(e) => failed("ssh spawn failed: "@ + e@),
        ProbeOutcome::TimedOut => failed("ssh probe timed out (30s)"@),
        ProbeOutcome::Ended { success, stdout } => if success {
            answer(text::lossy_text(stdout@))
        } else {
            failed("ssh connect/auth failed (key auth required, no passwords)"@)
        },
    }
}

/// What a probe with the output `out` came to.
pub fn probe_answer(out: &str) -> (r: SshProbe)
    ensures
        r@ == answer(out@),
{
    let (reachable, engines): (bool, Table) = parse_probe_output(out);
    let error: Option<String> = if reachable {
        None
    } else {
        Some("no probe marker in output".to_owned())
    };
    SshProbe { reachable, engines, error }
}

/// What a probe came to, from how its call ended.
pub fn probe_result(outcome: ProbeOutcome) -> (r: SshProbe)
    ensures
        r@ == probe_of(outcome),
        outcome matches ProbeOutcome::Ended { success: true, stdout } ==> valid_utf8(stdout@)
            ==> r@ == answer(decode_utf8(stdout@)),
{
    match outcome {
        ProbeOutcome::NotStarted(e) => {
            let mut message: String = "ssh spawn failed: ".to_owned();
            message.append(e.as_str());
            fail(message)
        },
        ProbeOutcome::TimedOut => fail("ssh probe timed out (30s)".to_owned()),
        ProbeOutcome::Ended { success, stdout } => if success {
            let output: String = text::from_utf8_lossy(stdout.as_slice());
            probe_answer(output.as_str())
        } else {
            fail("ssh connect/auth failed (key auth required, no passwords)".to_owned())
        },
    }
}

} // verus!
