//! What holds of probes, call by call and line by line.
use crate::engine::wsl_transport;
use crate::laws;
use crate::number;
use crate::order;
use crate::split;
use crate::ssh_hosts::probe;
use crate::ssh_hosts::probe::EngineBinary;
use crate::ssh_hosts::probe::ProbeOutcome;
use crate::ssh_hosts::probe::ProbeView;
use crate::table;
use crate::text;
use vstd::prelude::*;

verus! {

// ---------------------------------------------------------------------------
// The call
// ---------------------------------------------------------------------------
/// An address is good exactly when its port is not 0 and host and user are names of the allowed
/// kind. Of what is wrong, the port is told first, then the host, then the user.
pub proof fn law_addresses(host: Seq<char>, user: Seq<char>, port: u16)
    ensures
        ({
            let h = wsl_transport::safe_host(host);
            let u = wsl_transport::safe_user(user);
            let error = probe::address_error(host, user, port);
            &&& error is None <==> port >= 1 && h && u
            &&& port == 0 ==> error == Some("port must be 1-65535"@)
            &&& port >= 1 && !h ==> error == Some("invalid host"@)
            &&& port >= 1 && h && !u ==> error == Some("invalid user"@)
        }),
{
}

/// The script of a probe prints the mark and then, for each of the binaries in order, its name, a
/// colon and where the shell finds it. Each binary is asked for once, and no other is.
pub proof fn law_probe_script(engines: Seq<EngineBinary>) -> (asked: Seq<Seq<char>>)
    ensures
        probe::probe_text(engines) == "echo __CCGUI_OK__\nfor b in "@ + split::joined(asked, " "@)
            + "; do printf '%s:' \"$b\"; command -v \"$b\" 2>/dev/null || echo; done\n"@,
        order::strictly_ascending(asked),
        forall|i: int| 0 <= i < engines.len() ==> asked.contains((#[trigger] engines[i]).bin@),
        forall|k: int|
            0 <= k < asked.len() ==> exists|i: int|
                0 <= i < engines.len() && (#[trigger] engines[i]).bin@ == #[trigger] asked[k],
{
    let bins = probe::bins(engines);
    order::law_sorted_deduped(bins);
    let asked = order::deduped(order::sorted(bins));
    assert forall|i: int| 0 <= i < engines.len() implies asked.contains(
        (#[trigger] engines[i]).bin@,
    ) by {
        assert(bins[i] == engines[i].bin@);
    }
    assert forall|k: int| 0 <= k < asked.len() implies exists|i: int|
        0 <= i < engines.len() && (#[trigger] engines[i]).bin@ == #[trigger] asked[k] by {
        assert(asked.contains(asked[k]));
        let i = choose|i: int| 0 <= i < bins.len() && bins[i] == asked[k];
        assert(engines[i].bin@ == asked[k]);
    }
    asked
}

/// A probe is one call of `ssh` that asks for nothing, waits 10 seconds for the connection, goes to
/// the port, the user and the host of the address, and runs the script there.
pub proof fn law_probe_call(host: Seq<char>, user: Seq<char>, port: u16, engines: Seq<EngineBinary>)
    ensures
        ({
            let call = probe::probe_call(host, user, port, engines);
            let n = call.args.len() as int;
            &&& call.program == "ssh"@
            &&& call.envs.len() == 0
            &&& n == 11
            &&& call.args[0] == "-o"@ && call.args[1] == "BatchMode=yes"@
            &&& call.args[2] == "-o"@ && call.args[3] == "StrictHostKeyChecking=accept-new"@
            &&& call.args[4] == "-o"@ && call.args[5] == "ConnectTimeout=10"@
            &&& call.args[6] == "-p"@ && call.args[7] == number::decimal(port as nat)
            &&& call.args[n - 3] == "--"@
            &&& call.args[n - 2] == user + seq!['@'] + host
            &&& call.args[n - 1] == probe::probe_text(engines)
        }),
{
    reveal_strlit("@");
    assert("@"@ =~= seq!['@']);
}

// ---------------------------------------------------------------------------
// What it reports
// ---------------------------------------------------------------------------
/// A line with a name, a colon and a path reports that path of that binary: the name is what stands
/// ahead of the first colon, and the path is what follows it, whole but for white space around it.
pub proof fn law_reported(
    front: Seq<char>,
    bin: Seq<char>,
    gap: Seq<char>,
    path: Seq<char>,
    back: Seq<char>,
)
    requires
        laws::all_white(front),
        laws::all_white(gap),
        laws::all_white(back),
        bin.len() > 0,
        !text::white(bin[0]),
        laws::lacks(bin, ':'),
        laws::solid(path),
    ensures
        probe::reported(front + (bin + seq![':'] + (gap + path)) + back) == seq![(bin, path)],
{
    let core = bin + seq![':'] + (gap + path);
    let none = Seq::<char>::empty();
    assert(core[0] == bin[0]);
    assert(core.last() == path.last());
    laws::law_trim(front, core, back);
    laws::law_halves(bin, ':', gap + path);
    laws::law_trim(gap, path, none);
    assert(gap + path + none =~= gap + path);
    reveal_strlit("__CCGUI_OK__");
    assert(core[bin.len() as int] == ':');
    assert(core != probe::mark()) by {
        assert(laws::lacks("__CCGUI_OK__"@, ':'));
    }
}

/// A line without a colon, without a name ahead of it or without a path behind it reports nothing.
pub proof fn law_not_reported(front: Seq<char>, bin: Seq<char>, rest: Seq<char>, gap: Seq<char>)
    requires
        laws::all_white(front),
        laws::all_white(gap),
        laws::lacks(bin, ':'),
    ensures
        probe::reported(bin).len() == 0,
        probe::reported(front + (seq![':'] + rest)).len() == 0,
        probe::reported(bin + seq![':'] + gap).len() == 0,
{
    let none = Seq::<char>::empty();
    let (a, core, b) = laws::law_trim_parts(bin);
    assert forall|i: int| 0 <= i < core.len() implies #[trigger] core[i] != ':' by {
        assert(bin[a.len() + i] == core[i]);
    }
    laws::law_halves(core, ':', none);
    lemma_unnamed(front, rest);
    lemma_unplaced(bin, gap);
}

proof fn lemma_unnamed(front: Seq<char>, rest: Seq<char>)
    requires
        laws::all_white(front),
    ensures
        probe::reported(front + (seq![':'] + rest)).len() == 0,
{
    let none = Seq::<char>::empty();
    let (a, core, b) = laws::law_trim_parts(rest);
    let whole = seq![':'] + (a + core);
    if core.len() > 0 {
        assert(whole[0] == ':' && whole.last() == core.last());
        laws::law_trim(front, whole, b);
        assert(front + (seq![':'] + rest) =~= front + whole + b);
        laws::law_halves(none, ':', a + core);
        assert(none + seq![':'] + (a + core) =~= whole);
    } else {
        let one = seq![':'];
        let tail = a + b;
        assert forall|i: int| 0 <= i < tail.len() implies text::white(#[trigger] tail[i]) by {
            if i < a.len() {
                assert(tail[i] == a[i]);
            } else {
                assert(tail[i] == b[i - a.len()]);
            }
        }
        laws::law_trim(front, one, tail);
        assert(front + (seq![':'] + rest) =~= front + one + tail);
        laws::law_halves(none, ':', none);
        assert(none + seq![':'] + none =~= one);
    }
}

proof fn lemma_unplaced(bin: Seq<char>, gap: Seq<char>)
    requires
        laws::all_white(gap),
        laws::lacks(bin, ':'),
    ensures
        probe::reported(bin + seq![':'] + gap).len() == 0,
{
    let none = Seq::<char>::empty();
    let (a, core, b) = laws::law_trim_parts(bin);
    if core.len() == 0 {
        let front = a + b;
        assert forall|i: int| 0 <= i < front.len() implies text::white(#[trigger] front[i]) by {
            if i < a.len() {
                assert(front[i] == a[i]);
            } else {
                assert(front[i] == b[i - a.len()]);
            }
        }
        lemma_unnamed(front, gap);
        assert(bin + seq![':'] + gap =~= front + (seq![':'] + gap));
    } else {
        let name = core + b;
        let whole = name + seq![':'];
        assert forall|i: int| 0 <= i < name.len() implies #[trigger] name[i] != ':' by {
            assert(bin[a.len() + i] == name[i]);
        }
        assert(whole[0] == core[0] && whole.last() == ':');
        laws::law_trim(a, whole, gap);
        assert(bin + seq![':'] + gap =~= a + whole + gap);
        laws::law_halves(name, ':', none);
        assert(name + seq![':'] + none =~= whole);
        laws::law_trim_blank(none);
    }
}

/// The lines of an output report in their order, each for itself.
pub proof fn law_reports_add_up(lines: Seq<Seq<char>>, line: Seq<char>)
    ensures
        probe::all_reported(seq![]).len() == 0,
        probe::all_reported(lines.push(line)) == probe::all_reported(lines) + probe::reported(line),
{
    assert(lines.push(line).drop_last() =~= lines);
}

/// The last pair of the list with the key is the one at place `i`.
pub open spec fn last_at<V>(pairs: Seq<(Seq<char>, V)>, i: int, key: Seq<char>) -> bool {
    &&& 0 <= i < pairs.len()
    &&& pairs[i].0 == key
    &&& forall|j: int| i < j < pairs.len() ==> (#[trigger] pairs[j]).0 != key
}

/// A map from a list of pairs has the keys of the list, and of a key that occurs twice the last value
/// counts.
pub proof fn law_last_value_counts<V>(pairs: Seq<(Seq<char>, V)>, key: Seq<char>)
    ensures
        table::pairs_map(pairs).contains_key(key) <==> exists|i: int|
            0 <= i < pairs.len() && (#[trigger] pairs[i]).0 == key,
        forall|i: int| #[trigger]
            last_at(pairs, i, key) ==> table::pairs_map(pairs)[key] == pairs[i].1,
{
    table::lemma_pairs_map_keys(pairs, key);
    assert forall|i: int| #[trigger] last_at(pairs, i, key) implies table::pairs_map(pairs)[key]
        == pairs[i].1 by {
        lemma_last_value(pairs, i, key);
    }
}

proof fn lemma_last_value<V>(pairs: Seq<(Seq<char>, V)>, i: int, key: Seq<char>)
    requires
        last_at(pairs, i, key),
    ensures
        table::pairs_map(pairs)[key] == pairs[i].1,
    decreases pairs.len(),
{
    let rest = pairs.drop_last();
    let last = pairs.len() - 1;
    assert(pairs[last] == pairs.last());
    if i < last {
        assert forall|j: int| i < j < rest.len() implies (#[trigger] rest[j]).0 != key by {
            assert(pairs[j].0 == rest[j].0);
        }
        lemma_last_value(rest, i, key);
    }
}

/// A binary is found exactly when a line of the output reports it, and its path is the one that the
/// last such line reports.
pub proof fn law_found_binaries(output: Seq<char>, bin: Seq<char>)
    ensures
        ({
            let pairs = probe::all_reported(split::lines(output));
            let found = probe::answer(output).engines;
            &&& found.contains_key(bin) <==> exists|i: int|
                0 <= i < pairs.len() && (#[trigger] pairs[i]).0 == bin
            &&& forall|i: int| #[trigger] last_at(pairs, i, bin) ==> found[bin] == pairs[i].1
        }),
{
    law_last_value_counts(probe::all_reported(split::lines(output)), bin);
}

/// A host is reached exactly when a line of the output is the mark, but for white space around it,
/// and else that is the error.
pub proof fn law_reached(output: Seq<char>)
    ensures
        ({
            let lines = split::lines(output);
            let answer = probe::answer(output);
            &&& answer.reachable <==> exists|i: int|
                0 <= i < lines.len() && text::trim(#[trigger] lines[i]) == "__CCGUI_OK__"@
            &&& answer.reachable ==> answer.error is None
            &&& !answer.reachable ==> answer.error == Some("no probe marker in output"@)
        }),
{
}

/// The probe failed with the message, and found nothing.
pub open spec fn fails(result: ProbeView, message: Seq<char>) -> bool {
    &&& !result.reachable
    &&& result.error == Some(message)
    &&& result.engines == Map::<Seq<char>, Seq<char>>::empty()
}

/// What a probe came to is what its output says where its call succeeded, and else the failure of
/// the call.
pub proof fn law_probe_results(e: String, stdout: Vec<u8>)
    ensures
        fails(probe::probe_of(ProbeOutcome::NotStarted(e)), "ssh spawn failed: "@ + e@),
        fails(probe::probe_of(ProbeOutcome::TimedOut), "ssh probe timed out (30s)"@),
        fails(
            probe::probe_of(ProbeOutcome::Ended { success: false, stdout }),
            "ssh connect/auth failed (key auth required, no passwords)"@,
        ),
        probe::probe_of(ProbeOutcome::Ended { success: true, stdout }) == probe::answer(
            text::lossy_text(stdout@),
        ),
{
}

} // verus!
