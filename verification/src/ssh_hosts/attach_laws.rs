//! What holds of workspaces that are attached to hosts, field by field.
use crate::ids;
use crate::json::JsonTree;
use crate::split;
use crate::ssh_hosts::attach;
use crate::ssh_hosts::attach::AttachPlan;
use crate::ssh_hosts::attach::NewRow;
use crate::ssh_hosts::probe;
use crate::ssh_hosts::probe::EngineBinary;
use crate::ssh_hosts::probe_laws;
use vstd::prelude::*;

verus! {

/// The path starts at the root or at the home directory of the host.
pub open spec fn starts_there(path: Seq<char>) -> bool {
    ||| path.len() >= 1 && path[0] == '/'
    ||| path.len() >= 2 && path[0] == '~' && path[1] == '/'
}

/// A request is good exactly when its address is, both its paths are given, and the path on the host
/// starts at the root or the home directory there. What is wrong is told in this order.
pub proof fn law_requests(
    host: Seq<char>,
    user: Seq<char>,
    port: u16,
    workspace_path: Seq<char>,
    remote_path: Seq<char>,
)
    ensures
        ({
            let address = probe::address_error(host, user, port);
            let given = workspace_path.len() > 0 && remote_path.len() > 0;
            let error = attach::request_error(host, user, port, workspace_path, remote_path);
            &&& error is None <==> address is None && given && starts_there(remote_path)
            &&& address is Some ==> error == address
            &&& address is None && !given ==> error == Some(
                "workspace path and remote path are required"@,
            )
            &&& address is None && given && !starts_there(remote_path) ==> error == Some(
                "remote path must be absolute (or ~/…)"@,
            )
        }),
{
    reveal_strlit("/");
    reveal_strlit("~/");
    if remote_path.len() >= 1 {
        assert(remote_path.take(1)[0] == remote_path[0]);
        if remote_path[0] == '/' {
            assert(remote_path.take(1) =~= "/"@);
        }
    }
    if remote_path.len() >= 2 {
        assert(remote_path.take(2)[0] == remote_path[0]);
        assert(remote_path.take(2)[1] == remote_path[1]);
        if remote_path[0] == '~' && remote_path[1] == '/' {
            assert(remote_path.take(2) =~= "~/"@);
        }
    }
}

/// The engine has the id, and its binary was found.
pub open spec fn is_found(
    engine: EngineBinary,
    id: Seq<char>,
    found: Map<Seq<char>, Seq<char>>,
) -> bool {
    engine.id@ == id && found.contains_key(engine.bin@)
}

/// The last of the engines with the id whose binary was found is the one at place `i`.
pub open spec fn last_found(
    engines: Seq<EngineBinary>,
    i: int,
    id: Seq<char>,
    found: Map<Seq<char>, Seq<char>>,
) -> bool {
    &&& 0 <= i < engines.len()
    &&& is_found(engines[i], id, found)
    &&& forall|j: int| i < j < engines.len() ==> !is_found(#[trigger] engines[j], id, found)
}

/// An engine has a path exactly when its binary was found, and the path is where that was found. Of
/// engines with the same id the last one counts.
pub proof fn law_engine_paths(
    engines: Seq<EngineBinary>,
    found: Map<Seq<char>, Seq<char>>,
    id: Seq<char>,
)
    ensures
        attach::paths_by_id(engines, found).contains_key(id) <==> exists|i: int|
            0 <= i < engines.len() && is_found(#[trigger] engines[i], id, found),
        forall|i: int| #[trigger]
            last_found(engines, i, id, found) ==> attach::paths_by_id(engines, found)[id]
                == found[engines[i].bin@],
{
    lemma_found(engines, found, id);
    assert forall|i: int| #[trigger] last_found(engines, i, id, found) implies attach::paths_by_id(
        engines,
        found,
    )[id] == found[engines[i].bin@] by {
        lemma_last_found(engines, i, id, found);
    }
}

proof fn lemma_one_more_engine(engines: Seq<EngineBinary>, found: Map<Seq<char>, Seq<char>>)
    requires
        engines.len() > 0,
    ensures
        ({
            let before = attach::paths_by_id(engines.drop_last(), found);
            let engine = engines.last();
            attach::paths_by_id(engines, found) == (if found.contains_key(engine.bin@) {
                before.insert(engine.id@, found[engine.bin@])
            } else {
                before
            })
        }),
{
    let before = attach::found_paths(engines.drop_last(), found);
    let engine = engines.last();
    if found.contains_key(engine.bin@) {
        assert((before + seq![(engine.id@, found[engine.bin@])]).drop_last() =~= before);
    } else {
        assert(before + seq![] =~= before);
    }
}

proof fn lemma_found(
    engines: Seq<EngineBinary>,
    found: Map<Seq<char>, Seq<char>>,
    id: Seq<char>,
)
    ensures
        attach::paths_by_id(engines, found).contains_key(id) <==> exists|i: int|
            0 <= i < engines.len() && is_found(#[trigger] engines[i], id, found),
    decreases engines.len(),
{
    if engines.len() > 0 {
        let rest = engines.drop_last();
        lemma_found(rest, found, id);
        lemma_one_more_engine(engines, found);
        if attach::paths_by_id(rest, found).contains_key(id) {
            let i = choose|i: int|
                0 <= i < rest.len() && is_found(#[trigger] rest[i], id, found);
            assert(is_found(engines[i], id, found));
        }
        if exists|i: int| 0 <= i < engines.len() && is_found(#[trigger] engines[i], id, found) {
            let i = choose|i: int|
                0 <= i < engines.len() && is_found(#[trigger] engines[i], id, found);
            if i < rest.len() {
                assert(is_found(rest[i], id, found));
            }
        }
        if is_found(engines.last(), id, found) {
            assert(is_found(engines[engines.len() - 1], id, found));
        }
    }
}

proof fn lemma_last_found(
    engines: Seq<EngineBinary>,
    i: int,
    id: Seq<char>,
    found: Map<Seq<char>, Seq<char>>,
)
    requires
        last_found(engines, i, id, found),
    ensures
        attach::paths_by_id(engines, found)[id] == found[engines[i].bin@],
    decreases engines.len(),
{
    let rest = engines.drop_last();
    let last = engines.len() - 1;
    lemma_one_more_engine(engines, found);
    if i < last {
        assert(!is_found(engines[last], id, found));
        assert forall|j: int| i < j < rest.len() implies !is_found(
            #[trigger] rest[j],
            id,
            found,
        ) by {
            assert(engines[j] == rest[j]);
        }
        lemma_last_found(rest, i, id, found);
    }
}

/// The metadata of a workspace on a host has one entry, with the address, the path of each engine
/// and the path of the workspace, and nothing else.
pub proof fn law_attached_metadata(
    host: Seq<char>,
    user: Seq<char>,
    port: u16,
    engines: Map<Seq<char>, Seq<char>>,
    remote_path: Seq<char>,
) -> (ssh: Map<Seq<char>, JsonTree>)
    ensures
        attach::attached(host, user, port, engines, remote_path) == JsonTree::Object(
            map!["ssh"@ => JsonTree::Object(ssh)],
        ),
        ssh.dom() == set!["host"@, "user"@, "port"@, "enginePaths"@, "workspace"@],
        ssh["host"@] == JsonTree::Text(host),
        ssh["user"@] == JsonTree::Text(user),
        ssh["port"@] == JsonTree::Natural(port as u64),
        ssh["workspace"@] == JsonTree::Text(remote_path),
        ({
            &&& ssh["enginePaths"@] matches JsonTree::Object(paths)
            &&& paths.dom() == engines.dom()
            &&& forall|id: Seq<char>| #[trigger]
                paths.contains_key(id) ==> paths[id] == JsonTree::Text(engines[id])
        }),
{
    attach::lemma_keys();
    let ssh = map![
        "host"@ => JsonTree::Text(host),
        "user"@ => JsonTree::Text(user),
        "port"@ => JsonTree::Natural(port as u64),
        "enginePaths"@ => JsonTree::Object(attach::text_fields(engines)),
        "workspace"@ => JsonTree::Text(remote_path),
    ];
    assert(ssh.dom() =~= set!["host"@, "user"@, "port"@, "enginePaths"@, "workspace"@]);
    assert(attach::text_fields(engines).dom() =~= engines.dom());
    ssh
}

/// A workspace cannot be attached exactly when the host was not reached, for the reason that the
/// probe gives.
pub proof fn law_probe_errors(message: Seq<char>)
    ensures
        attach::probe_error(true, None) is None,
        attach::probe_error(true, Some(message)) is None,
        attach::probe_error(false, Some(message)) == Some(message),
        attach::probe_error(false, None) == Some("host unreachable"@),
{
}

/// A row is added exactly when no row of the workspace was there, and it has what the plan says.
pub proof fn law_added_rows(updated: usize, plan: AttachPlan, row: NewRow)
    ensures
        attach::adds(updated, plan, None) <==> updated > 0,
        attach::adds(updated, plan, Some(row)) <==> {
            &&& updated == 0
            &&& ids::hyphenated_id(row.id@)
            &&& row.path@ == plan.workspace_path@
            &&& row.name@ == plan.name@
            &&& row.last_opened_at == 0
            &&& row.meta@ == plan.meta@
        },
{
}

/// What a report gives is what is attached: an engine whose binary a line reports last with a path
/// has that path, and one whose binary no line reports has none.
pub proof fn law_reported_paths_are_attached(
    output: Seq<char>,
    engine: EngineBinary,
    pairs: Seq<(Seq<char>, Seq<char>)>,
    i: int,
)
    requires
        pairs == probe::all_reported(split::lines(output)),
    ensures
        ({
            let paths = attach::paths_by_id(seq![engine], probe::answer(output).engines);
            &&& paths.contains_key(engine.id@) <==> exists|k: int|
                0 <= k < pairs.len() && (#[trigger] pairs[k]).0 == engine.bin@
            &&& probe_laws::last_at(pairs, i, engine.bin@) ==> paths[engine.id@] == pairs[i].1
        }),
{
    let found = probe::answer(output).engines;
    let list = seq![engine];
    probe_laws::law_found_binaries(output, engine.bin@);
    lemma_one_more_engine(list, found);
    assert(list.drop_last() =~= seq![]);
    if probe_laws::last_at(pairs, i, engine.bin@) {
        assert(pairs[i].0 == engine.bin@);
    }
}

} // verus!
