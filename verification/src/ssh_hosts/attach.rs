//! Attaching a workspace to a host.
use crate::ids;
use crate::json;
use crate::json::JsonTree;
use crate::paths;
use crate::ssh_hosts::probe;
use crate::ssh_hosts::probe::EngineBinary;
use crate::ssh_hosts::probe::SshProbe;
use crate::split;
use crate::table;
use crate::table::Table;
use crate::text;
use serde_json::Value;
use vstd::prelude::*;

verus! {

// ---------------------------------------------------------------------------
// The request
// ---------------------------------------------------------------------------
/// A workspace to attach, and the directory on a host to attach it to.
#[derive(Debug)]
pub struct AttachRequest {
    pub host: String,
    pub user: String,
    pub port: u16,
    pub workspace_path: String,
    pub remote_path: String,
}

/// What is wrong with a request whose parts are trimmed, if anything is.
pub open spec fn request_error(
    host: Seq<char>,
    user: Seq<char>,
    port: u16,
    workspace_path: Seq<char>,
    remote_path: Seq<char>,
) -> Option<Seq<char>> {
    if probe::address_error(host, user, port) is Some {
        probe::address_error(host, user, port)
    } else if workspace_path.len() == 0 || remote_path.len() == 0 {
        Some("workspace path and remote path are required"@)
    } else if !split::starts(remote_path, "/"@) && !split::starts(remote_path, "~/"@) {
        Some("remote path must be absolute (or ~/…)"@)
    } else {
        None
    }
}

/// Checks a request whose parts were typed in: the white space around them does not count.
pub fn ssh_host_attach(
    host: &str,
    user: &str,
    port: u16,
    workspace_path: &str,
    remote_path: &str,
) -> (r: Result<AttachRequest, String>)
    ensures
        ({
            let error = request_error(
                text::trim(host@),
                text::trim(user@),
                port,
                text::trim(workspace_path@),
                text::trim(remote_path@),
            );
            match r {
                Ok(request) => {
                    &&& error is None
                    &&& request.host@ == text::trim(host@)
                    &&& request.user@ == text::trim(user@)
                    &&& request.port == port
                    &&& request.workspace_path@ == text::trim(workspace_path@)
                    &&& request.remote_path@ == text::trim(remote_path@)
                },
                Err(message) => error == Some(message@),
            }
        }),
{
    let host: &str = text::trimmed(host);
    let user: &str = text::trimmed(user);
    let workspace_path: &str = text::trimmed(workspace_path);
    let remote_path: &str = text::trimmed(remote_path);
    match probe::validate(host, user, port) {
        Ok(_) => {},
        Err(message) => {
            return Err(message);
        },
    }
    if workspace_path.is_empty() || remote_path.is_empty() {
        return Err("workspace path and remote path are required".to_owned());
    }
    if !split::starts_with(remote_path, "/") && !split::starts_with(remote_path, "~/") {
        return Err("remote path must be absolute (or ~/…)".to_owned());
    }
    Ok(
        AttachRequest {
            host: host.to_owned(),
            user: user.to_owned(),
            port,
            workspace_path: workspace_path.to_owned(),
            remote_path: remote_path.to_owned(),
        },
    )
}

// ---------------------------------------------------------------------------
// Engines
// ---------------------------------------------------------------------------
/// The engine and its path on the host, where the probe found its binary.
pub open spec fn found_path(
    engine: EngineBinary,
    found: Map<Seq<char>, Seq<char>>,
) -> Seq<(Seq<char>, Seq<char>)> {
    if found.contains_key(engine.bin@) {
        seq![(engine.id@, found[engine.bin@])]
    } else {
        seq![]
    }
}

/// The engines with their paths on the host.
pub open spec fn found_paths(
    engines: Seq<EngineBinary>,
    found: Map<Seq<char>, Seq<char>>,
) -> Seq<(Seq<char>, Seq<char>)>
    decreases engines.len(),
{
    if engines.len() == 0 {
        seq![]
    } else {
        found_paths(engines.drop_last(), found) + found_path(engines.last(), found)
    }
}

/// The path of each engine on the host, by its id.
pub open spec fn paths_by_id(
    engines: Seq<EngineBinary>,
    found: Map<Seq<char>, Seq<char>>,
) -> Map<Seq<char>, Seq<char>> {
    table::pairs_map(found_paths(engines, found))
}

/// The path of each of `engines` on the host, by its id.
pub fn engine_paths(engines: &Vec<EngineBinary>, found: &Table) -> (r: Table)
    ensures
        r@ == paths_by_id(engines@, found@),
{
    let mut r: Table = Table::new();
    let mut i: usize = 0;
    while i < engines.len()
        invariant
            i <= engines@.len(),
            r@ == paths_by_id(engines@.take(i as int), found@),
        decreases engines.len() - i,
    {
        let engine: &EngineBinary = &engines[i];
        let ghost before = found_paths(engines@.take(i as int), found@);
        proof {
            let next = engines@.take(i + 1);
            assert(next.drop_last() =~= engines@.take(i as int));
            assert(next.last() == *engine);
            assert(before + seq![] =~= before);
        }
        if let Some(path) = found.get(engine.bin.as_str()) {
            r.insert(engine.id.clone(), path.clone());
            proof {
                assert((before + seq![(engine.id@, path@)]).drop_last() =~= before);
            }
        }
        i = i + 1;
    }
    proof {
        assert(engines@.take(i as int) =~= engines@);
    }
    r
}

// ---------------------------------------------------------------------------
// The metadata
// ---------------------------------------------------------------------------
/// Texts as the fields of an object.
pub open spec fn text_fields(texts: Map<Seq<char>, Seq<char>>) -> Map<Seq<char>, JsonTree> {
    texts.map_values(|s: Seq<char>| JsonTree::Text(s))
}

/// The metadata of a workspace on a host.
pub open spec fn attached(
    host: Seq<char>,
    user: Seq<char>,
    port: u16,
    engines: Map<Seq<char>, Seq<char>>,
    remote_path: Seq<char>,
) -> JsonTree {
    JsonTree::Object(
        map![
            "ssh"@ => JsonTree::Object(
                map![
                    "host"@ => JsonTree::Text(host),
                    "user"@ => JsonTree::Text(user),
                    "port"@ => JsonTree::Natural(port as u64),
                    "enginePaths"@ => JsonTree::Object(text_fields(engines)),
                    "workspace"@ => JsonTree::Text(remote_path),
                ],
            ),
        ],
    )
}

/// The keys of the metadata are different.
pub proof fn lemma_keys()
    ensures
        "host"@ != "user"@,
        "host"@ != "port"@,
        "host"@ != "enginePaths"@,
        "host"@ != "workspace"@,
        "user"@ != "port"@,
        "user"@ != "enginePaths"@,
        "user"@ != "workspace"@,
        "port"@ != "enginePaths"@,
        "port"@ != "workspace"@,
        "enginePaths"@ != "workspace"@,
        "controlPath"@ != "host"@,
        "controlPath"@ != "user"@,
        "controlPath"@ != "port"@,
        "controlPath"@ != "enginePaths"@,
        "controlPath"@ != "workspace"@,
{
    reveal_strlit("host");
    reveal_strlit("user");
    reveal_strlit("port");
    reveal_strlit("enginePaths");
    reveal_strlit("workspace");
    reveal_strlit("controlPath");
    assert("host"@[0] == 'h');
    assert("user"@[0] == 'u');
    assert("port"@[0] == 'p');
    assert("enginePaths"@[0] == 'e');
    assert("workspace"@[0] == 'w');
    assert("controlPath"@[0] == 'c');
}

proof fn lemma_text_pairs(pairs: Seq<(Seq<char>, Seq<char>)>)
    ensures
        table::pairs_map(
            pairs.map_values(|p: (Seq<char>, Seq<char>)| (p.0, JsonTree::Text(p.1))),
        ) == text_fields(table::pairs_map(pairs)),
    decreases pairs.len(),
{
    let texts = pairs.map_values(|p: (Seq<char>, Seq<char>)| (p.0, JsonTree::Text(p.1)));
    if pairs.len() == 0 {
        assert(table::pairs_map(texts) =~= text_fields(table::pairs_map(pairs)));
    } else {
        let rest = pairs.drop_last();
        lemma_text_pairs(rest);
        assert(texts.drop_last() =~= rest.map_values(
            |p: (Seq<char>, Seq<char>)| (p.0, JsonTree::Text(p.1)),
        ));
        assert(table::pairs_map(texts) =~= text_fields(table::pairs_map(pairs)));
    }
}

/// Texts as a JSON object.
fn texts_value(texts: &Table) -> (r: Value)
    ensures
        json::json_of(r) == JsonTree::Object(text_fields(texts@)),
{
    let pairs: Vec<(String, String)> = texts.to_pairs();
    let ghost all = table::pair_views(pairs@);
    let ghost trees = all.map_values(|p: (Seq<char>, Seq<char>)| (p.0, JsonTree::Text(p.1)));
    let mut entries: Vec<(String, Value)> = Vec::new();
    let mut i: usize = 0;
    proof {
        assert(json::value_trees(entries@) =~= trees.take(0));
    }
    while i < pairs.len()
        invariant
            i <= pairs@.len(),
            all == table::pair_views(pairs@),
            trees == all.map_values(|p: (Seq<char>, Seq<char>)| (p.0, JsonTree::Text(p.1))),
            json::value_trees(entries@) == trees.take(i as int),
        decreases pairs.len() - i,
    {
        let ghost before = entries@;
        entries.push((pairs[i].0.clone(), json::text_value(pairs[i].1.as_str())));
        proof {
            assert(json::value_trees(entries@) =~= json::value_trees(before).push(trees[i as int]));
            assert(trees.take(i + 1) =~= trees.take(i as int).push(trees[i as int]));
        }
        i = i + 1;
    }
    proof {
        assert(trees.take(i as int) =~= trees);
        assert forall|a: int, b: int| 0 <= a < b < trees.len() implies (#[trigger] trees[a]).0 != (
        #[trigger] trees[b]).0 by {
            assert(all[a].0 != all[b].0);
        }
        lemma_text_pairs(all);
    }
    json::object_value(entries)
}

/// One field of an object.
fn field(key: &str, value: Value) -> (r: (String, Value))
    ensures
        r.0@ == key@,
        r.1 == value,
{
    (key.to_owned(), value)
}

/// An object is plain where its fields are.
proof fn lemma_attached_plain(
    host: Seq<char>,
    user: Seq<char>,
    port: u16,
    engines: Map<Seq<char>, Seq<char>>,
    remote_path: Seq<char>,
)
    ensures
        json::plain(attached(host, user, port, engines, remote_path), 127),
{
    reveal_with_fuel(json::plain, 4);
}

/// The metadata text of a workspace that is the directory `remote_path` on a host, with the engine
/// paths `engines` by engine.
pub fn attach_meta(
    host: &str,
    user: &str,
    port: u16,
    engines: &Table,
    remote_path: &str,
) -> (r: String)
    ensures
        r@ == json::json_layout(attached(host@, user@, port, engines@, remote_path@)),
        json::json_text(r@) == Some(attached(host@, user@, port, engines@, remote_path@)),
{
    let mut inner: Vec<(String, Value)> = Vec::new();
    inner.push(field("host", json::text_value(host)));
    inner.push(field("user", json::text_value(user)));
    inner.push(field("port", json::natural_value(port as u64)));
    inner.push(field("enginePaths", texts_value(engines)));
    inner.push(field("workspace", json::text_value(remote_path)));
    proof {
        lemma_keys();
        let trees = json::value_trees(inner@);
        assert(trees =~= seq![
            ("host"@, JsonTree::Text(host@)),
            ("user"@, JsonTree::Text(user@)),
            ("port"@, JsonTree::Natural(port as u64)),
            ("enginePaths"@, JsonTree::Object(text_fields(engines@))),
            ("workspace"@, JsonTree::Text(remote_path@)),
        ]);
        reveal_with_fuel(table::pairs_map, 6);
        assert(table::pairs_map(trees) =~= map![
            "host"@ => JsonTree::Text(host@),
            "user"@ => JsonTree::Text(user@),
            "port"@ => JsonTree::Natural(port as u64),
            "enginePaths"@ => JsonTree::Object(text_fields(engines@)),
            "workspace"@ => JsonTree::Text(remote_path@),
        ]);
    }
    let ssh: Value = json::object_value(inner);
    let mut outer: Vec<(String, Value)> = Vec::new();
    outer.push(field("ssh", ssh));
    proof {
        let trees = json::value_trees(outer@);
        assert(trees =~= seq![("ssh"@, json::json_of(ssh))]);
        assert(trees.drop_last() =~= seq![]);
        reveal_with_fuel(table::pairs_map, 2);
        assert(table::pairs_map(trees) =~= map!["ssh"@ => json::json_of(ssh)]);
        lemma_attached_plain(host@, user@, port, engines@, remote_path@);
    }
    json::value_to_text(&json::object_value(outer))
}

// ---------------------------------------------------------------------------
// After the probe
// ---------------------------------------------------------------------------
/// What to store for an attached workspace.
#[derive(Debug)]
pub struct AttachPlan {
    pub workspace_path: String,
    /// Its metadata.
    pub meta: String,
    /// Its name, for a workspace that is not known yet.
    pub name: String,
}

/// Why a probed host cannot be attached to, where it cannot.
pub open spec fn probe_error(reachable: bool, error: Option<Seq<char>>) -> Option<Seq<char>> {
    if reachable {
        None
    } else {
        match error {
            Some(message) => Some(message),
            None => Some("host unreachable"@),
        }
    }
}

/// What to store for the workspace of `request`, after `probe` of its host, or the reason why it
/// cannot be attached. The engine paths are those that the probe found.
pub fn attach_plan(request: &AttachRequest, probe: &SshProbe, engines: &Vec<EngineBinary>) -> (r:
    Result<AttachPlan, String>)
    ensures
        match r {
            Ok(plan) => {
                &&& probe.reachable
                &&& plan.workspace_path@ == request.workspace_path@
                &&& ({
                    let meta = attached(
                        request.host@,
                        request.user@,
                        request.port,
                        paths_by_id(engines@, probe@.engines),
                        request.remote_path@,
                    );
                    plan.meta@ == json::json_layout(meta) && json::json_text(plan.meta@) == Some(
                        meta,
                    )
                })
                &&& paths::called(request.remote_path@, plan.name@)
                &&& paths::portable(request.remote_path@) ==> plan.name@ == paths::base_name(
                    request.remote_path@,
                )
            },
            Err(message) => probe_error(probe.reachable, probe@.error) == Some(message@),
        },
{
    if !probe.reachable {
        return match &probe.error {
            Some(message) => Err(message.clone()),
            None => Err("host unreachable".to_owned()),
        };
    }
    let found: Table = engine_paths(engines, &probe.engines);
    Ok(
        AttachPlan {
            workspace_path: request.workspace_path.clone(),
            meta: attach_meta(
                request.host.as_str(),
                request.user.as_str(),
                request.port,
                &found,
                request.remote_path.as_str(),
            ),
            name: paths::name_of(request.remote_path.as_str()),
        },
    )
}

// ---------------------------------------------------------------------------
// The row
// ---------------------------------------------------------------------------
/// A workspace to be added to the table of workspaces, behind all others.
#[derive(Debug)]
pub struct NewRow {
    pub id: String,
    pub path: String,
    pub name: String,
    /// When it was last opened: never.
    pub last_opened_at: i64,
    pub meta: String,
}

/// What to add for a plan, after its metadata was given to `updated` rows: a row of the workspace
/// where there was none, and nothing else.
pub open spec fn adds(updated: usize, plan: AttachPlan, added: Option<NewRow>) -> bool {
    match added {
        Some(row) => {
            &&& updated == 0
            &&& ids::hyphenated_id(row.id@)
            &&& row.path@ == plan.workspace_path@
            &&& row.name@ == plan.name@
            &&& row.last_opened_at == 0
            &&& row.meta@ == plan.meta@
        },
        None => updated != 0,
    }
}

/// The row to add for `plan`, after its metadata was given to the `updated` rows of the workspace.
pub fn row_to_add(updated: usize, plan: &AttachPlan) -> (r: Option<NewRow>)
    ensures
        adds(updated, *plan, r),
{
    if updated == 0 {
        Some(
            NewRow {
                id: ids::fresh_row_id(),
                path: plan.workspace_path.clone(),
                name: plan.name.clone(),
                last_opened_at: 0,
                meta: plan.meta.clone(),
            },
        )
    } else {
        None
    }
}

} // verus!
