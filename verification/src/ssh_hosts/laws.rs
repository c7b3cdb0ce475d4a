//! What holds of hosts as a whole.
use crate::engine::wsl_transport;
use crate::engine::wsl_transport::TransportView;
use crate::json;
use crate::json::JsonTree;
use crate::number;
use crate::order;
use crate::split;
use crate::ssh_hosts::attach;
use crate::ssh_hosts::attach::AttachPlan;
use crate::ssh_hosts::attach::AttachRequest;
use crate::ssh_hosts::attach::NewRow;
use crate::ssh_hosts::config;
use crate::ssh_hosts::config::ConfigHostView;
use crate::ssh_hosts::config::Reading;
use crate::ssh_hosts::config::StanzaView;
use crate::ssh_hosts::includes;
use crate::ssh_hosts::includes::DirEntry;
use crate::ssh_hosts::probe;
use crate::ssh_hosts::probe::EngineBinary;
use crate::table;
use crate::text;
use vstd::prelude::*;

verus! {

// ---------------------------------------------------------------------------
// Probes
// ---------------------------------------------------------------------------
/// The script of a probe asks for the binary of each engine, once and in order.
pub proof fn law_probe_asks_once(engines: Seq<EngineBinary>)
    ensures
        ({
            let asked = order::deduped(order::sorted(probe::bins(engines)));
            &&& probe::probe_text(engines) == probe::script_for(asked)
            &&& order::strictly_ascending(asked)
            &&& forall|bin: Seq<char>| #[trigger]
                asked.contains(bin) <==> probe::bins(engines).contains(bin)
        }),
{
    order::law_sorted_deduped(probe::bins(engines));
}

/// The destination of a probe cannot be taken for an option, and the first mark that ends the options
/// of the call stands right before it.
pub proof fn law_probe_destination_is_no_option(
    host: Seq<char>,
    user: Seq<char>,
    port: u16,
    engines: Seq<EngineBinary>,
)
    requires
        probe::address_error(host, user, port) is None,
    ensures
        ({
            let args = probe::probe_call(host, user, port, engines).args;
            &&& args.len() == 11
            &&& args[8] == "--"@
            &&& args[9] == user + "@"@ + host
            &&& args[9][0] != '-'
            &&& forall|i: int| 0 <= i < 8 ==> #[trigger] args[i] != "--"@
        }),
{
    reveal_strlit("--");
    reveal_strlit("-o");
    reveal_strlit("-p");
    reveal_strlit("StrictHostKeyChecking=accept-new");
    reveal_strlit("ConnectTimeout=10");
    reveal_strlit("BatchMode=yes");
    number::lemma_decimal(port as nat);
    let args = probe::probe_call(host, user, port, engines).args;
    assert(args[9][0] == user[0]);
    assert("-o"@[1] != "--"@[1]);
    assert("-p"@[1] != "--"@[1]);
    assert("StrictHostKeyChecking=accept-new"@[0] != "--"@[0]);
    assert("ConnectTimeout=10"@[0] != "--"@[0]);
    assert("BatchMode=yes"@[0] != "--"@[0]);
    assert(number::decimal(port as nat)[0] != "--"@[0]);
}

/// A path as it is stored: not blank, and without white space around it.
pub open spec fn stored_path(path: Seq<char>) -> bool {
    !text::blank(path) && text::trim(path) == path
}

/// Each of the texts is a path as it is stored.
pub open spec fn stored_paths(paths: Map<Seq<char>, Seq<char>>) -> bool {
    forall|key: Seq<char>| #[trigger] paths.contains_key(key) ==> stored_path(paths[key])
}

proof fn lemma_reported(lines: Seq<Seq<char>>)
    ensures
        forall|i: int|
            0 <= i < probe::all_reported(lines).len() ==> {
                let report = #[trigger] probe::all_reported(lines)[i];
                report.0.len() > 0 && stored_path(report.1)
            },
    decreases lines.len(),
{
    if lines.len() > 0 {
        let rest = lines.drop_last();
        lemma_reported(rest);
        let line = text::trim(lines.last());
        assert forall|i: int| 0 <= i < probe::all_reported(lines).len() implies ({
            let report = #[trigger] probe::all_reported(lines)[i];
            report.0.len() > 0 && stored_path(report.1)
        }) by {
            if i < probe::all_reported(rest).len() {
                assert(probe::all_reported(lines)[i] == probe::all_reported(rest)[i]);
            } else {
                let (bin, path) = split::halves(line, ':')->0;
                text::lemma_trim_twice(path);
            }
        }
    }
}

/// Whatever a host prints, the paths that a probe takes from it are not blank and have no white
/// space around them, and the names of the binaries are not empty.
pub proof fn law_probed_paths(output: Seq<char>)
    ensures
        stored_paths(probe::engines_in(output)),
        !probe::engines_in(output).contains_key(Seq::empty()),
{
    let lines = split::lines(output);
    let pairs = probe::all_reported(lines);
    lemma_reported(lines);
    assert forall|bin: Seq<char>| #[trigger] probe::engines_in(output).contains_key(bin) implies
        bin.len() > 0 && stored_path(probe::engines_in(output)[bin]) by {
        table::lemma_pairs_map_from(pairs, bin);
        let i = choose|i: int|
            0 <= i < pairs.len() && pairs[i] == (bin, probe::engines_in(output)[bin]);
        assert(pairs[i].0.len() > 0);
    }
}

/// A host either answers, with no error, or fails with one.
pub proof fn law_probe_answers_or_fails(outcome: probe::ProbeOutcome)
    ensures
        probe::probe_of(outcome).reachable <==> probe::probe_of(outcome).error is None,
{
}

/// The line that the script of a probe prints for a binary: an empty path for one that is not
/// there.
pub open spec fn report_line(bin: Seq<char>, path: Seq<char>) -> Seq<char> {
    bin + seq![':'] + path
}

/// What the script of a probe prints for some binaries and their paths.
pub open spec fn report(found: Seq<(Seq<char>, Seq<char>)>) -> Seq<char>
    decreases found.len(),
{
    if found.len() == 0 {
        probe::mark().push('\n')
    } else {
        report(found.drop_last()) + report_line(found.last().0, found.last().1).push('\n')
    }
}

/// The binaries that are there.
pub open spec fn present(found: Seq<(Seq<char>, Seq<char>)>) -> Seq<(Seq<char>, Seq<char>)>
    decreases found.len(),
{
    if found.len() == 0 {
        seq![]
    } else if found.last().1.len() == 0 {
        present(found.drop_last())
    } else {
        present(found.drop_last()).push(found.last())
    }
}

/// The name of a binary: one word without a colon.
pub open spec fn binary_name(bin: Seq<char>) -> bool {
    &&& bin.len() > 0
    &&& forall|i: int| 0 <= i < bin.len() ==> !text::white(#[trigger] bin[i]) && bin[i] != ':'
}

/// What a shell answers for a binary: nothing, or a path on one line.
pub open spec fn shell_answer(path: Seq<char>) -> bool {
    path.len() > 0 ==> {
        &&& stored_path(path)
        &&& forall|i: int| 0 <= i < path.len() ==> #[trigger] path[i] != '\n'
    }
}

proof fn lemma_stored_end(path: Seq<char>)
    requires
        stored_path(path),
    ensures
        path.len() > 0,
        !text::white(path.last()),
{
    text::lemma_trim_edges(path);
}

proof fn lemma_report_halves(bin: Seq<char>, path: Seq<char>)
    requires
        binary_name(bin),
    ensures
        split::halves(report_line(bin, path), ':') == Some((bin, path)),
        report_line(bin, path) != probe::mark(),
{
    let line = report_line(bin, path);
    let colon = text::is_char(':');
    assert forall|j: int| 0 <= j < bin.len() implies !colon(#[trigger] line[j]) by {
        assert(line[j] == bin[j]);
    }
    text::lemma_first_where_is(line, colon, bin.len() as int);
    assert(line.take(bin.len() as int) =~= bin);
    assert(line.skip(bin.len() as int + 1) =~= path);
    assert(line[bin.len() as int] == ':');
    reveal_strlit("__CCGUI_OK__");
}

proof fn lemma_report_line(bin: Seq<char>, path: Seq<char>)
    requires
        binary_name(bin),
        shell_answer(path),
    ensures
        split::drop_cr(report_line(bin, path)) == report_line(bin, path),
        forall|i: int|
            0 <= i < report_line(bin, path).len() ==> #[trigger] report_line(bin, path)[i] != '\n',
        probe::reported(report_line(bin, path)) == (if path.len() == 0 {
            Seq::<(Seq<char>, Seq<char>)>::empty()
        } else {
            seq![(bin, path)]
        }),
{
    let line = report_line(bin, path);
    assert(line[0] == bin[0]);
    if path.len() > 0 {
        lemma_stored_end(path);
        assert(line.last() == path.last());
    } else {
        assert(line.last() == ':');
    }
    text::lemma_trim_none(line);
    assert forall|i: int| 0 <= i < line.len() implies #[trigger] line[i] != '\n' by {
        if i < bin.len() {
            assert(!text::white(bin[i]));
        } else if i > bin.len() {
            assert(line[i] == path[i - bin.len() - 1]);
        }
    }
    lemma_report_halves(bin, path);
}

proof fn lemma_mark_lines()
    ensures
        ({
            let lines = split::lines(probe::mark().push('\n'));
            lines == seq![probe::mark()] && probe::all_reported(lines).len() == 0
        }),
{
    let mark = probe::mark();
    let lines = split::lines(mark.push('\n'));
    reveal_strlit("__CCGUI_OK__");
    split::lemma_lines_push(seq![], mark);
    assert(seq![] + mark.push('\n') =~= mark.push('\n'));
    assert(lines =~= seq![mark]);
    text::lemma_trim_none(mark);
    assert(lines.drop_last() =~= seq![]);
    assert(probe::all_reported(lines.drop_last()) =~= seq![]);
    assert(lines.last() == mark);
    assert(probe::reported(mark) =~= seq![]);
    assert(probe::all_reported(lines) =~= seq![]);
}

#[verifier::spinoff_prover]
proof fn lemma_report_lines(found: Seq<(Seq<char>, Seq<char>)>)
    requires
        forall|i: int|
            0 <= i < found.len() ==> binary_name((#[trigger] found[i]).0) && shell_answer(found[i].1),
    ensures
        report(found).last() == '\n',
        split::lines(report(found)).len() > 0,
        split::lines(report(found))[0] == probe::mark(),
        probe::all_reported(split::lines(report(found))) == present(found),
    decreases found.len(),
{
    let lines = split::lines(report(found));
    if found.len() == 0 {
        lemma_mark_lines();
        assert(probe::all_reported(lines) =~= present(found));
    } else {
        let rest = found.drop_last();
        let (bin, path) = found[found.len() - 1];
        assert forall|i: int| 0 <= i < rest.len() implies binary_name((#[trigger] rest[i]).0)
            && shell_answer(rest[i].1) by {
            assert(rest[i] == found[i]);
        }
        lemma_report_lines(rest);
        lemma_report_line(bin, path);
        split::lemma_lines_push(report(rest), report_line(bin, path));
        assert(lines.drop_last() =~= split::lines(report(rest)));
        assert(lines.last() == report_line(bin, path));
        assert(probe::all_reported(lines) =~= present(found));
    }
}

/// What the script of a probe prints is read as it was meant: the host is reachable, and its engines
/// are the binaries that are there, with their paths.
pub proof fn law_report_is_read_back(found: Seq<(Seq<char>, Seq<char>)>)
    requires
        forall|i: int|
            0 <= i < found.len() ==> binary_name((#[trigger] found[i]).0) && shell_answer(found[i].1),
    ensures
        probe::answer(report(found)).reachable,
        probe::answer(report(found)).error is None,
        probe::answer(report(found)).engines == table::pairs_map(present(found)),
{
    lemma_report_lines(found);
    let lines = split::lines(report(found));
    reveal_strlit("__CCGUI_OK__");
    text::lemma_trim_none(probe::mark());
    assert(text::trim(lines[0]) == probe::mark());
}

// ---------------------------------------------------------------------------
// Attached workspaces
// ---------------------------------------------------------------------------
proof fn lemma_found_paths(engines: Seq<EngineBinary>, found: Map<Seq<char>, Seq<char>>)
    requires
        stored_paths(found),
    ensures
        forall|i: int|
            0 <= i < attach::found_paths(engines, found).len() ==> stored_path(
                (#[trigger] attach::found_paths(engines, found)[i]).1,
            ),
    decreases engines.len(),
{
    if engines.len() > 0 {
        let rest = engines.drop_last();
        lemma_found_paths(rest, found);
        let all = attach::found_paths(engines, found);
        assert forall|i: int| 0 <= i < all.len() implies stored_path((#[trigger] all[i]).1) by {
            if i < attach::found_paths(rest, found).len() {
                assert(all[i] == attach::found_paths(rest, found)[i]);
            }
        }
    }
}

/// The engine paths of a workspace are paths that the probe found, as they are stored.
pub proof fn law_attached_paths(engines: Seq<EngineBinary>, found: Map<Seq<char>, Seq<char>>)
    requires
        stored_paths(found),
    ensures
        stored_paths(attach::paths_by_id(engines, found)),
{
    let pairs = attach::found_paths(engines, found);
    lemma_found_paths(engines, found);
    assert forall|id: Seq<char>| #[trigger] attach::paths_by_id(engines, found).contains_key(
        id,
    ) implies stored_path(attach::paths_by_id(engines, found)[id]) by {
        table::lemma_pairs_map_from(pairs, id);
        let i = choose|i: int|
            0 <= i < pairs.len() && pairs[i] == (id, attach::paths_by_id(engines, found)[id]);
        assert(stored_path(pairs[i].1));
    }
}

/// The transport to a workspace on a plain host.
pub open spec fn plain_transport(
    host: Seq<char>,
    user: Seq<char>,
    port: u16,
    engines: Map<Seq<char>, Seq<char>>,
    remote_path: Seq<char>,
) -> TransportView {
    TransportView {
        host: host,
        port: port,
        user: user,
        distro: None,
        control_path: None,
        engine_paths: engines,
        workspace: Some(remote_path),
    }
}

/// The metadata of an attached workspace describes the transport that it was attached by: the host,
/// the user, the port, the engine paths and the directory of the request.
pub proof fn law_attached_workspace_is_remote(
    host: Seq<char>,
    user: Seq<char>,
    port: u16,
    workspace_path: Seq<char>,
    remote_path: Seq<char>,
    engines: Map<Seq<char>, Seq<char>>,
)
    requires
        attach::request_error(host, user, port, workspace_path, remote_path) is None,
        stored_paths(engines),
    ensures
        wsl_transport::meta_transport(
            attach::attached(host, user, port, engines, remote_path),
        ) == Some(plain_transport(host, user, port, engines, remote_path)),
{
    reveal_strlit("/");
    reveal_strlit("~/");
    attach::lemma_keys();
    let ssh = attach::attached(host, user, port, engines, remote_path).get("ssh"@)->0;
    assert(wsl_transport::host_char(host[0]) && wsl_transport::host_char(host[host.len() - 1]));
    assert(wsl_transport::user_char(user[0]) && wsl_transport::user_char(user[user.len() - 1]));
    text::lemma_trim_none(host);
    text::lemma_trim_none(user);
    assert(remote_path[0] == '/' || remote_path[0] == '~') by {
        if split::starts(remote_path, "/"@) {
            assert(remote_path.take(1)[0] == "/"@[0]);
        } else {
            assert(remote_path.take(2)[0] == "~/"@[0]);
        }
    }
    text::lemma_blank(remote_path);
    assert(!text::blank(remote_path)) by {
        assert(!text::white(remote_path[0]));
    }
    let fields = attach::text_fields(engines);
    assert(wsl_transport::path_fields(fields) =~= engines) by {
        assert forall|key: Seq<char>| #[trigger]
            wsl_transport::path_fields(fields).contains_key(key) <==> engines.contains_key(key) by {
            if engines.contains_key(key) {
                assert(stored_path(engines[key]));
                assert(fields[key] == JsonTree::Text(engines[key]));
            }
        }
        assert forall|key: Seq<char>| #[trigger] engines.contains_key(key) implies
            wsl_transport::path_fields(fields)[key] == engines[key] by {
            assert(stored_path(engines[key]));
            assert(fields[key] == JsonTree::Text(engines[key]));
        }
    }
    assert(wsl_transport::port_at(ssh) == Some(port));
    assert(wsl_transport::transport_at(ssh, false) =~= Some(
        plain_transport(host, user, port, engines, remote_path),
    ));
}

/// A workspace that was attached after a probe is remote, by the address of the request and by the
/// engine paths of the probe, whatever the host printed.
pub proof fn law_probed_workspace_is_remote(
    host: Seq<char>,
    user: Seq<char>,
    port: u16,
    workspace_path: Seq<char>,
    remote_path: Seq<char>,
    engines: Seq<EngineBinary>,
    output: Seq<char>,
)
    requires
        attach::request_error(host, user, port, workspace_path, remote_path) is None,
    ensures
        ({
            let paths = attach::paths_by_id(engines, probe::answer(output).engines);
            wsl_transport::meta_transport(
                attach::attached(host, user, port, paths, remote_path),
            ) == Some(plain_transport(host, user, port, paths, remote_path))
        }),
{
    law_probed_paths(output);
    law_attached_paths(engines, probe::answer(output).engines);
    law_attached_workspace_is_remote(
        host,
        user,
        port,
        workspace_path,
        remote_path,
        attach::paths_by_id(engines, probe::answer(output).engines),
    );
}

// ---------------------------------------------------------------------------
// The table of workspaces
// ---------------------------------------------------------------------------
/// A row of the table of workspaces.
#[verifier::ext_equal]
pub struct RowView {
    pub id: Seq<char>,
    pub path: Seq<char>,
    pub name: Seq<char>,
    pub last_opened_at: int,
    pub sort_order: int,
    pub meta: Option<Seq<char>>,
}

/// How many rows are of the workspace.
pub open spec fn rows_of(rows: Seq<RowView>, path: Seq<char>) -> nat
    decreases rows.len(),
{
    if rows.len() == 0 {
        0
    } else {
        rows_of(rows.drop_last(), path) + (if rows.last().path == path {
            1nat
        } else {
            0nat
        })
    }
}

/// The place behind all rows.
pub open spec fn next_order(rows: Seq<RowView>) -> int
    decreases rows.len(),
{
    if rows.len() == 0 {
        0
    } else if rows.len() > 1 && next_order(rows.drop_last()) > rows.last().sort_order {
        next_order(rows.drop_last())
    } else {
        rows.last().sort_order + 1
    }
}

/// The rows, with the metadata given to those of the workspace.
pub open spec fn with_meta(
    rows: Seq<RowView>,
    path: Seq<char>,
    meta: Seq<char>,
) -> Seq<RowView> {
    rows.map_values(
        |row: RowView|
            if row.path == path {
                RowView { meta: Some(meta), ..row }
            } else {
                row
            },
    )
}

/// The rows after a plan was carried out: the rows of its workspace have its metadata, and what is to
/// be added stands behind all others.
pub open spec fn stored(
    rows: Seq<RowView>,
    plan: AttachPlan,
    added: Option<NewRow>,
) -> Seq<RowView> {
    let kept = with_meta(rows, plan.workspace_path@, plan.meta@);
    match added {
        Some(row) => kept.push(
            RowView {
                id: row.id@,
                path: row.path@,
                name: row.name@,
                last_opened_at: row.last_opened_at as int,
                sort_order: next_order(rows),
                meta: Some(row.meta@),
            },
        ),
        None => kept,
    }
}

proof fn lemma_rows_of(rows: Seq<RowView>, path: Seq<char>, meta: Seq<char>)
    ensures
        rows_of(with_meta(rows, path, meta), path) == rows_of(rows, path),
        rows_of(rows, path) == 0 <==> forall|i: int|
            0 <= i < rows.len() ==> (#[trigger] rows[i]).path != path,
    decreases rows.len(),
{
    if rows.len() > 0 {
        let rest = rows.drop_last();
        lemma_rows_of(rest, path, meta);
        assert(with_meta(rows, path, meta).drop_last() =~= with_meta(rest, path, meta));
        if rows_of(rows, path) == 0 {
            assert forall|i: int| 0 <= i < rows.len() implies (#[trigger] rows[i]).path
                != path by {
                if i < rest.len() {
                    assert(rest[i] == rows[i]);
                }
            }
        }
        if forall|i: int| 0 <= i < rows.len() ==> (#[trigger] rows[i]).path != path {
            assert forall|i: int| 0 <= i < rest.len() implies (#[trigger] rest[i]).path
                != path by {
                assert(rest[i] == rows[i]);
            }
            assert(rows[rows.len() - 1].path != path);
        }
    }
}

/// Attaching gives a row that is there nothing but new metadata, adds one row where there is none,
/// and leaves all other rows as they are.
pub proof fn law_attached_rows(
    rows: Seq<RowView>,
    plan: AttachPlan,
    updated: usize,
    added: Option<NewRow>,
)
    requires
        updated == rows_of(rows, plan.workspace_path@),
        attach::adds(updated, plan, added),
    ensures
        ({
            let path = plan.workspace_path@;
            let after = stored(rows, plan, added);
            &&& after.len() == rows.len() + (if updated == 0 {
                1int
            } else {
                0int
            })
            &&& rows_of(after, path) == (if updated == 0 {
                1
            } else {
                rows_of(rows, path)
            })
            &&& forall|i: int|
                0 <= i < rows.len() ==> #[trigger] after[i] == (if rows[i].path == path {
                    RowView { meta: Some(plan.meta@), ..rows[i] }
                } else {
                    rows[i]
                })
            &&& forall|i: int|
                0 <= i < after.len() && (#[trigger] after[i]).path == path ==> after[i].meta
                    == Some(plan.meta@)
        }),
{
    let path = plan.workspace_path@;
    let after = stored(rows, plan, added);
    lemma_rows_of(rows, path, plan.meta@);
    if updated == 0 {
        assert(after.drop_last() =~= with_meta(rows, path, plan.meta@));
    }
}

/// After a workspace was attached there is a row of it, and each row of it describes the transport
/// by which it was attached: the address of the request, and the engine paths of the probe.
pub proof fn law_attached_row_is_remote(
    request: AttachRequest,
    engines: Seq<EngineBinary>,
    output: Seq<char>,
    rows: Seq<RowView>,
    plan: AttachPlan,
    updated: usize,
    added: Option<NewRow>,
)
    requires
        attach::request_error(
            request.host@,
            request.user@,
            request.port,
            request.workspace_path@,
            request.remote_path@,
        ) is None,
        plan.workspace_path@ == request.workspace_path@,
        json::json_text(plan.meta@) == Some(
            attach::attached(
                request.host@,
                request.user@,
                request.port,
                attach::paths_by_id(engines, probe::answer(output).engines),
                request.remote_path@,
            ),
        ),
        updated == rows_of(rows, plan.workspace_path@),
        attach::adds(updated, plan, added),
    ensures
        ({
            let after = stored(rows, plan, added);
            &&& rows_of(after, request.workspace_path@) > 0
            &&& forall|i: int|
                0 <= i < after.len() && (#[trigger] after[i]).path == request.workspace_path@
                    ==> wsl_transport::text_transport(after[i].meta) == Some(
                    plain_transport(
                        request.host@,
                        request.user@,
                        request.port,
                        attach::paths_by_id(engines, probe::answer(output).engines),
                        request.remote_path@,
                    ),
                )
        }),
{
    law_attached_rows(rows, plan, updated, added);
    law_probed_workspace_is_remote(
        request.host@,
        request.user@,
        request.port,
        request.workspace_path@,
        request.remote_path@,
        engines,
        output,
    );
}

// ---------------------------------------------------------------------------
// Configuration files
// ---------------------------------------------------------------------------
proof fn lemma_reading_done(reading: Reading, lines: Seq<Seq<char>>)
    ensures
        ({
            let fresh = Reading { done: seq![], ..reading };
            let there = reading.run(lines);
            let here = fresh.run(lines);
            &&& there.done == reading.done + here.done
            &&& there.current == here.current
            &&& there.in_match == here.in_match
            &&& there.flushed() == reading.done + here.flushed()
        }),
    decreases lines.len(),
{
    let fresh = Reading { done: seq![], ..reading };
    if lines.len() == 0 {
        assert(reading.done + fresh.done =~= reading.done);
        assert(reading.flushed() =~= reading.done + fresh.flushed());
    } else {
        lemma_reading_done(reading, lines.drop_last());
        let there = reading.run(lines);
        let here = fresh.run(lines);
        assert(there.flushed() =~= reading.done + here.flushed());
    }
}

/// Reading one more file keeps the stanzas of the files before it, and adds those that it has by
/// itself.
pub proof fn law_files_add_up(stanzas: Seq<StanzaView>, text: Seq<char>)
    ensures
        config::with_file(stanzas, text) == stanzas + config::with_file(seq![], text),
{
    lemma_reading_done(
        Reading { done: stanzas, current: None, in_match: false },
        split::lines(text),
    );
}

/// A line that starts no stanza and no `Match` block.
pub open spec fn plain_line(line: Seq<char>) -> bool {
    config::key_value(line) matches Some((key, value)) ==> !text::caseless(key, "host"@)
        && !text::caseless(key, "match"@)
}

/// The settings of a `Match` block do not count.
pub proof fn law_match_block_is_skipped(reading: Reading, lines: Seq<Seq<char>>)
    requires
        reading.in_match,
        forall|i: int| 0 <= i < lines.len() ==> plain_line(#[trigger] lines[i]),
    ensures
        reading.run(lines) == reading,
    decreases lines.len(),
{
    if lines.len() > 0 {
        let rest = lines.drop_last();
        assert forall|i: int| 0 <= i < rest.len() implies plain_line(#[trigger] rest[i]) by {
            assert(rest[i] == lines[i]);
        }
        law_match_block_is_skipped(reading, rest);
        assert(plain_line(lines[lines.len() - 1]));
    }
}

proof fn lemma_reading_aliases(reading: Reading, lines: Seq<Seq<char>>)
    requires
        forall|i: int| 0 <= i < reading.done.len() ==> (#[trigger] reading.done[i]).aliases.len() > 0,
    ensures
        forall|i: int|
            0 <= i < reading.run(lines).done.len() ==> (
            #[trigger] reading.run(lines).done[i]).aliases.len() > 0,
    decreases lines.len(),
{
    if lines.len() > 0 {
        lemma_reading_aliases(reading, lines.drop_last());
    }
}

/// Each stanza that a file has names something.
pub proof fn law_stanzas_have_aliases(text: Seq<char>)
    ensures
        forall|i: int|
            0 <= i < config::with_file(seq![], text).len() ==> (#[trigger] config::with_file(
                seq![],
                text,
            )[i]).aliases.len() > 0,
{
    lemma_reading_aliases(
        Reading { done: seq![], current: None, in_match: false },
        split::lines(text),
    );
}

/// Hosts as they are listed: each by an alias that names one host, with a user and a port, and no
/// alias twice.
pub open spec fn listable(hosts: Seq<ConfigHostView>) -> bool {
    &&& forall|i: int|
        0 <= i < hosts.len() ==> {
            let host = #[trigger] hosts[i];
            config::concrete(host.alias) && host.user is Some && host.port is Some
        }
    &&& forall|i: int, j: int|
        0 <= i < j < hosts.len() ==> (#[trigger] hosts[i]).alias != (#[trigger] hosts[j]).alias
}

proof fn lemma_with_aliases(
    hosts: Seq<ConfigHostView>,
    stanza: StanzaView,
    aliases: Seq<Seq<char>>,
    os_user: Seq<char>,
)
    requires
        listable(hosts),
    ensures
        ({
            let more = config::with_aliases(hosts, stanza, aliases, os_user);
            &&& listable(more)
            &&& hosts.len() <= more.len()
            &&& more.take(hosts.len() as int) == hosts
            &&& forall|k: int|
                0 <= k < aliases.len() && config::concrete(#[trigger] aliases[k])
                    ==> config::listed(more, aliases[k])
        }),
    decreases aliases.len(),
{
    if aliases.len() == 0 {
        assert(hosts.take(hosts.len() as int) =~= hosts);
    } else {
        let rest = aliases.drop_last();
        lemma_with_aliases(hosts, stanza, rest, os_user);
        let some = config::with_aliases(hosts, stanza, rest, os_user);
        let more = config::with_aliases(hosts, stanza, aliases, os_user);
        let alias = aliases[aliases.len() - 1];
        if more.len() > some.len() {
            assert forall|i: int, j: int| 0 <= i < j < more.len() implies (
            #[trigger] more[i]).alias != (#[trigger] more[j]).alias by {
                if j == some.len() {
                    assert(some[i].alias != alias);
                }
            }
        }
        assert(more.take(hosts.len() as int) =~= hosts) by {
            assert(some.take(hosts.len() as int) =~= hosts);
            assert forall|i: int| 0 <= i < hosts.len() implies more[i] == hosts[i] by {
                assert(some.take(hosts.len() as int)[i] == some[i]);
            }
        }
        assert forall|k: int|
            0 <= k < aliases.len() && config::concrete(
                #[trigger] aliases[k],
            ) implies config::listed(more, aliases[k]) by {
            if k < rest.len() {
                assert(config::concrete(rest[k]));
                let i = choose|i: int|
                    0 <= i < some.len() && (#[trigger] some[i]).alias == aliases[k];
                assert(more[i].alias == aliases[k]);
            } else if config::listed(some, alias) {
                let i = choose|i: int| 0 <= i < some.len() && (#[trigger] some[i]).alias == alias;
                assert(more[i].alias == alias);
            } else {
                assert(more[some.len() as int].alias == alias);
            }
        }
    }
}

/// Each alias of a stanza that names one host is listed once, with a user and a port.
pub proof fn law_hosts_are_listed_once(stanzas: Seq<StanzaView>, os_user: Seq<char>)
    ensures
        listable(config::hosts_of(stanzas, os_user)),
        forall|n: int, k: int|
            0 <= n < stanzas.len() && 0 <= k < stanzas[n].aliases.len() && config::concrete(
                #[trigger] stanzas[n].aliases[k],
            ) ==> config::listed(config::hosts_of(stanzas, os_user), stanzas[n].aliases[k]),
    decreases stanzas.len(),
{
    if stanzas.len() > 0 {
        let rest = stanzas.drop_last();
        law_hosts_are_listed_once(rest, os_user);
        let some = config::hosts_of(rest, os_user);
        let more = config::hosts_of(stanzas, os_user);
        lemma_with_aliases(some, stanzas.last(), stanzas.last().aliases, os_user);
        assert forall|n: int, k: int|
            0 <= n < stanzas.len() && 0 <= k < stanzas[n].aliases.len() && config::concrete(
                #[trigger] stanzas[n].aliases[k],
            ) implies config::listed(more, stanzas[n].aliases[k]) by {
            let alias = stanzas[n].aliases[k];
            if n < rest.len() {
                assert(config::concrete(rest[n].aliases[k]));
                let i = choose|i: int| 0 <= i < some.len() && (#[trigger] some[i]).alias == alias;
                assert(more.take(some.len() as int)[i] == more[i]);
            }
        }
    }
}

/// The host is the one that stanza `n` gives its alias, and no stanza before has that alias.
pub open spec fn given_by(
    stanzas: Seq<StanzaView>,
    n: int,
    host: ConfigHostView,
    os_user: Seq<char>,
) -> bool {
    &&& 0 <= n < stanzas.len()
    &&& stanzas[n].aliases.contains(host.alias)
    &&& host == config::host_of(stanzas[n], host.alias, os_user)
    &&& forall|m: int| 0 <= m < n ==> !(#[trigger] stanzas[m]).aliases.contains(host.alias)
}

/// The host is the one that the first stanza with its alias gives.
pub open spec fn given(stanzas: Seq<StanzaView>, host: ConfigHostView, os_user: Seq<char>) -> bool {
    exists|n: int| #[trigger] given_by(stanzas, n, host, os_user)
}

proof fn lemma_aliases_given(
    hosts: Seq<ConfigHostView>,
    stanza: StanzaView,
    aliases: Seq<Seq<char>>,
    os_user: Seq<char>,
)
    ensures
        ({
            let more = config::with_aliases(hosts, stanza, aliases, os_user);
            &&& hosts.len() <= more.len()
            &&& forall|i: int| 0 <= i < hosts.len() ==> #[trigger] more[i] == hosts[i]
            &&& forall|i: int|
                hosts.len() <= i < more.len() ==> {
                    let host = #[trigger] more[i];
                    &&& aliases.contains(host.alias)
                    &&& host == config::host_of(stanza, host.alias, os_user)
                    &&& config::concrete(host.alias)
                    &&& !config::listed(hosts, host.alias)
                }
        }),
    decreases aliases.len(),
{
    if aliases.len() > 0 {
        let rest = aliases.drop_last();
        let alias = aliases[aliases.len() - 1];
        lemma_aliases_given(hosts, stanza, rest, os_user);
        let some = config::with_aliases(hosts, stanza, rest, os_user);
        let more = config::with_aliases(hosts, stanza, aliases, os_user);
        assert forall|i: int| hosts.len() <= i < more.len() implies ({
            let host = #[trigger] more[i];
            &&& aliases.contains(host.alias)
            &&& host == config::host_of(stanza, host.alias, os_user)
            &&& config::concrete(host.alias)
            &&& !config::listed(hosts, host.alias)
        }) by {
            if i < some.len() {
                assert(more[i] == some[i]);
                let k = choose|k: int| 0 <= k < rest.len() && rest[k] == some[i].alias;
                assert(aliases[k] == some[i].alias);
            } else {
                assert(more[i].alias == alias);
                if config::listed(hosts, alias) {
                    let k = choose|k: int|
                        0 <= k < hosts.len() && (#[trigger] hosts[k]).alias == alias;
                    assert(some[k].alias == alias);
                }
            }
        }
    }
}

/// No other host is listed: each is the one that the first stanza with its alias gives.
pub proof fn law_hosts_come_from_stanzas(stanzas: Seq<StanzaView>, os_user: Seq<char>)
    ensures
        forall|i: int|
            0 <= i < config::hosts_of(stanzas, os_user).len() ==> given(
                stanzas,
                #[trigger] config::hosts_of(stanzas, os_user)[i],
                os_user,
            ),
    decreases stanzas.len(),
{
    if stanzas.len() > 0 {
        let rest = stanzas.drop_last();
        let last = stanzas.len() - 1;
        let some = config::hosts_of(rest, os_user);
        let all = config::hosts_of(stanzas, os_user);
        law_hosts_come_from_stanzas(rest, os_user);
        law_hosts_are_listed_once(rest, os_user);
        lemma_aliases_given(some, stanzas.last(), stanzas.last().aliases, os_user);
        assert forall|i: int| 0 <= i < all.len() implies given(
            stanzas,
            #[trigger] all[i],
            os_user,
        ) by {
            let alias = all[i].alias;
            if i < some.len() {
                assert(all[i] == some[i]);
                assert(given(rest, some[i], os_user));
                let n = choose|n: int| #[trigger] given_by(rest, n, some[i], os_user);
                assert forall|m: int| 0 <= m < n implies !(
                #[trigger] stanzas[m]).aliases.contains(alias) by {
                    assert(stanzas[m] == rest[m]);
                }
                assert(given_by(stanzas, n, all[i], os_user));
            } else {
                assert forall|m: int| 0 <= m < last implies !(
                #[trigger] stanzas[m]).aliases.contains(alias) by {
                    assert(stanzas[m] == rest[m]);
                    if rest[m].aliases.contains(alias) {
                        let k = choose|k: int|
                            0 <= k < rest[m].aliases.len() && rest[m].aliases[k] == alias;
                        assert(config::concrete(rest[m].aliases[k]));
                    }
                }
                assert(given_by(stanzas, last, all[i], os_user));
            }
        }
    }
}

/// Further stanzas only add hosts behind those that are there.
pub proof fn law_further_stanzas_add_hosts(
    stanzas: Seq<StanzaView>,
    more: Seq<StanzaView>,
    os_user: Seq<char>,
)
    ensures
        ({
            let hosts = config::hosts_of(stanzas, os_user);
            let all = config::hosts_of(stanzas + more, os_user);
            hosts.len() <= all.len() && all.take(hosts.len() as int) == hosts
        }),
    decreases more.len(),
{
    let hosts = config::hosts_of(stanzas, os_user);
    if more.len() == 0 {
        assert(stanzas + more =~= stanzas);
        assert(hosts.take(hosts.len() as int) =~= hosts);
    } else {
        let fewer = stanzas + more.drop_last();
        let some = config::hosts_of(fewer, os_user);
        let all = config::hosts_of(stanzas + more, os_user);
        law_further_stanzas_add_hosts(stanzas, more.drop_last(), os_user);
        assert((stanzas + more).drop_last() =~= fewer);
        law_hosts_are_listed_once(fewer, os_user);
        lemma_with_aliases(some, more.last(), more.last().aliases, os_user);
        assert(all.take(hosts.len() as int) =~= hosts) by {
            assert forall|i: int| 0 <= i < hosts.len() implies all[i] == hosts[i] by {
                assert(all.take(some.len() as int)[i] == all[i]);
                assert(some.take(hosts.len() as int)[i] == some[i]);
            }
        }
    }
}

proof fn lemma_picked(entries: Seq<DirEntry>, prefix: Seq<char>, name: Seq<char>)
    ensures
        includes::picked(entries, prefix).contains(name) <==> exists|i: int|
            0 <= i < entries.len() && includes::picked_name(#[trigger] entries[i], prefix) == seq![
                name,
            ],
    decreases entries.len(),
{
    if entries.len() > 0 {
        let rest = entries.drop_last();
        let last = entries[entries.len() - 1];
        let all = includes::picked(entries, prefix);
        let some = includes::picked(rest, prefix);
        lemma_picked(rest, prefix, name);
        if all.contains(name) {
            let k = choose|k: int| 0 <= k < all.len() && all[k] == name;
            if k < some.len() {
                assert(some[k] == name);
                let i = choose|i: int|
                    0 <= i < rest.len() && includes::picked_name(#[trigger] rest[i], prefix)
                        == seq![name];
                assert(includes::picked_name(entries[i], prefix) == seq![name]);
            } else {
                assert(includes::picked_name(last, prefix) =~= seq![name]);
            }
        }
        if exists|i: int|
            0 <= i < entries.len() && includes::picked_name(#[trigger] entries[i], prefix) == seq![
                name,
            ] {
            let i = choose|i: int|
                0 <= i < entries.len() && includes::picked_name(#[trigger] entries[i], prefix)
                    == seq![name];
            if i < rest.len() {
                assert(includes::picked_name(rest[i], prefix) == seq![name]);
                let k = choose|k: int| 0 <= k < some.len() && some[k] == name;
                assert(all[k] == name);
            } else {
                assert(seq![name][0] == name);
                assert(all[some.len() as int] == name);
            }
        }
    }
}

/// Of a directory, exactly the files whose names start with the prefix are taken, in order.
pub proof fn law_selected_files(entries: Seq<DirEntry>, prefix: Seq<char>)
    ensures
        ({
            let names = order::sorted(includes::picked(entries, prefix));
            &&& order::ascending(names)
            &&& forall|name: Seq<char>| #[trigger]
                names.contains(name) <==> exists|i: int|
                    0 <= i < entries.len() && includes::picked_name(#[trigger] entries[i], prefix)
                        == seq![name]
        }),
{
    broadcast use vstd::seq_lib::group_to_multiset_ensures;

    let list = includes::picked(entries, prefix);
    let names = order::sorted(list);
    order::law_sorted(list);
    assert forall|name: Seq<char>| #[trigger]
        names.contains(name) <==> exists|i: int|
            0 <= i < entries.len() && includes::picked_name(#[trigger] entries[i], prefix) == seq![
                name,
            ] by {
        lemma_picked(entries, prefix, name);
        assert(names.contains(name) <==> names.to_multiset().count(name) > 0);
        assert(list.contains(name) <==> list.to_multiset().count(name) > 0);
    }
}

} // verus!
