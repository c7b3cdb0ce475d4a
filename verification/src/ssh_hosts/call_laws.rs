//! What the functions on hosts give, call by call.
use crate::engine::command::CommandLine;
use crate::json;
use crate::order;
use crate::paths;
use crate::split;
use crate::ssh_hosts::attach;
use crate::ssh_hosts::attach::AttachPlan;
use crate::ssh_hosts::attach::AttachRequest;
use crate::ssh_hosts::attach::NewRow;
use crate::ssh_hosts::attach_laws;
use crate::ssh_hosts::config;
use crate::ssh_hosts::config::SshConfigHost;
use crate::ssh_hosts::config::Stanza;
use crate::ssh_hosts::config_laws;
use crate::ssh_hosts::includes;
use crate::ssh_hosts::includes::DirEntry;
use crate::ssh_hosts::includes::IncludeTarget;
use crate::ssh_hosts::probe;
use crate::ssh_hosts::probe::EngineBinary;
use crate::ssh_hosts::probe::ProbeOutcome;
use crate::ssh_hosts::probe::SshProbe;
use crate::table::Table;
use crate::text;
#[allow(unused_imports)]
use vstd::utf8::*;
use vstd::prelude::*;

verus! {

// ---------------------------------------------------------------------------
// Configuration files
// ---------------------------------------------------------------------------
/// What a stanza says is what it holds.
pub proof fn law_stanza_views(stanza: Stanza, i: int)
    ensures
        stanza@.aliases.len() == stanza.aliases@.len(),
        0 <= i < stanza.aliases@.len() ==> stanza@.aliases[i] == stanza.aliases@[i]@,
        stanza@.hostname is Some <==> stanza.hostname is Some,
        stanza.hostname matches Some(s) ==> stanza@.hostname == Some(s@),
        stanza@.user is Some <==> stanza.user is Some,
        stanza.user matches Some(s) ==> stanza@.user == Some(s@),
        stanza@.port == stanza.port,
{
}

/// What a host says is what it holds.
pub proof fn law_host_views(host: SshConfigHost)
    ensures
        host@.alias == host.alias@,
        host@.hostname == host.hostname@,
        host@.user is Some <==> host.user is Some,
        host.user matches Some(s) ==> host@.user == Some(s@),
        host@.port == host.port,
{
}

/// The keyword of a line and its value are given where the line has them.
pub proof fn law_keyword_is_given(line: &str, r: Option<(&str, &str)>)
    requires
        call_ensures(config::keyword, (line,), r),
    ensures
        r is Some <==> config::key_value(line@) is Some,
        r matches Some((key, value)) ==> config::key_value(line@) == Some((key@, value@)),
{
}

/// An alias is one host exactly when it is something without pattern and negation.
pub proof fn law_alias_is_judged(alias: &str, r: bool)
    requires
        call_ensures(config::is_concrete, (alias,), r),
    ensures
        r <==> alias@.len() > 0 && !alias@.contains('*') && !alias@.contains('?')
            && !alias@.contains('!'),
{
    let s = alias@;
    if config::concrete(s) {
        assert(!s.contains('*') && !s.contains('?') && !s.contains('!'));
    } else if s.len() > 0 {
        let i = choose|i: int|
            0 <= i < s.len() && !(#[trigger] s[i] != '*' && s[i] != '?' && s[i] != '!');
        assert(s.contains(s[i]));
    }
}

/// The hosts are those of the stanzas of all the texts.
pub proof fn law_hosts_are_given(texts: &Vec<String>, os_user: &str, r: Vec<SshConfigHost>)
    requires
        call_ensures(config::ssh_config_hosts, (texts, os_user), r),
    ensures
        r@.map_values(|h: SshConfigHost| h@) == config::hosts_of(
            config::stanzas_of(texts@.map_values(|s: String| s@)),
            os_user@,
        ),
{
    assert(split::views(texts@) =~= texts@.map_values(|s: String| s@));
    assert(config::host_views(r@) =~= r@.map_values(|h: SshConfigHost| h@));
}

/// The user of this machine is the name that the first variable gives, and `root` where there is
/// none or it cannot be used.
pub proof fn law_user_is_given(
    name: String,
    logname: Option<String>,
    username: Option<String>,
    first: String,
    second: String,
    third: String,
    none: String,
)
    requires
        call_ensures(config::default_os_user, (Some(name), logname, username), first),
        call_ensures(config::default_os_user, (None, Some(name), username), second),
        call_ensures(config::default_os_user, (None, None, Some(name)), third),
        call_ensures(config::default_os_user, (None, None, None), none),
    ensures
        none@ == "root"@,
        text::blank(name@) || text::trim(name@)[0] == '-' ==> first@ == "root"@,
        !text::blank(name@) && text::trim(name@)[0] != '-' ==> first@ == name@,
        second@ == first@,
        third@ == first@,
{
    let log = match logname {
        Some(s) => Some(s@),
        None => None,
    };
    let win = match username {
        Some(s) => Some(s@),
        None => None,
    };
    config_laws::law_os_user(Some(name@), log, win, name@);
    config_laws::law_os_user(None, Some(name@), win, name@);
    config_laws::law_os_user(None, None, Some(name@), name@);
}

/// The patterns of a text are those of its lines.
pub proof fn law_patterns_are_given(text: &str, r: Vec<String>)
    requires
        call_ensures(includes::include_patterns, (text,), r),
    ensures
        r@.map_values(|s: String| s@) == includes::patterns(split::lines(text@)),
{
    assert(split::views(r@) =~= r@.map_values(|s: String| s@));
}

/// A pattern stands for what its place stands for: the files of a directory, or one file.
pub proof fn law_pattern_is_expanded(
    pattern: &str,
    home: &str,
    ssh_dir: &str,
    r: IncludeTarget,
) -> (place: Seq<char>)
    requires
        call_ensures(includes::expand_include, (pattern, home, ssh_dir), r),
    ensures
        includes::placed(pattern@, home@, ssh_dir@, place),
        r is File <==> !place.contains('*'),
        r matches IncludeTarget::File(path) ==> path@ == place,
        r matches IncludeTarget::Files { dir, prefix } ==> includes::target_of(place) == (
        includes::TargetView::Files { dir: dir@, prefix: prefix@ }),
{
    let place = choose|place: Seq<char>| #[trigger]
        includes::placed(pattern@, home@, ssh_dir@, place) && r@ == includes::target_of(place);
    config_laws::lemma_starred(place);
    place
}

/// The files of a directory that are picked by their names come in the order of the names, and none
/// is lost or added.
pub proof fn law_files_are_picked(entries: &Vec<DirEntry>, prefix: &str, r: Vec<String>)
    requires
        call_ensures(includes::select_includes, (entries, prefix), r),
    ensures
        order::ascending(r@.map_values(|s: String| s@)),
        r@.map_values(|s: String| s@).to_multiset() =~= includes::picked(
            entries@,
            prefix@,
        ).to_multiset(),
{
    assert(split::views(r@) =~= r@.map_values(|s: String| s@));
    order::law_sorted(includes::picked(entries@, prefix@));
}

/// The texts of a configuration are that of its main file and those that could be read, in order.
/// Without the main file there are none.
pub proof fn law_texts_are_given(
    main: String,
    named: Vec<Option<String>>,
    all: Vec<String>,
    none: Vec<String>,
)
    requires
        call_ensures(includes::config_texts, (Some(main), named), all),
        call_ensures(includes::config_texts, (None, named), none),
    ensures
        none@.len() == 0,
        all@.map_values(|s: String| s@) == seq![main@] + named@.filter(
            |t: Option<String>| t is Some,
        ).map_values(|t: Option<String>| t->0@),
{
    config_laws::law_readable_texts(named@);
    assert(split::views(all@) =~= all@.map_values(|s: String| s@));
    assert(split::views(none@).len() == none@.len());
}

// ---------------------------------------------------------------------------
// Probes
// ---------------------------------------------------------------------------
/// What a probe says is what it holds.
pub proof fn law_probe_views(probe: SshProbe)
    ensures
        probe@.reachable == probe.reachable,
        probe@.engines == probe.engines@,
        probe@.error is Some <==> probe.error is Some,
        probe.error matches Some(s) ==> probe@.error == Some(s@),
{
}

/// A host is probed exactly when its address is good, and else the probe has failed for the reason
/// that the address is not.
pub proof fn law_probe_is_run(
    host: &str,
    user: &str,
    port: u16,
    engines: &Vec<EngineBinary>,
    checked: Result<(), String>,
    r: Result<CommandLine, SshProbe>,
)
    requires
        call_ensures(probe::validate, (host, user, port), checked),
        call_ensures(probe::run_probe, (host, user, port, engines), r),
    ensures
        checked is Ok <==> probe::address_error(host@, user@, port) is None,
        checked matches Err(e) ==> probe::address_error(host@, user@, port) == Some(e@),
        r is Ok <==> checked is Ok,
        r matches Ok(call) ==> call@ == probe::probe_call(host@, user@, port, engines@),
        r matches Err(failure) ==> {
            &&& !failure.reachable
            &&& failure.engines@ == Map::<Seq<char>, Seq<char>>::empty()
            &&& failure.error is Some
            &&& failure.error->0@ == checked->Err_0@
        },
{
}

/// White space around what was typed in makes no difference to a probe.
pub proof fn law_typed_probe_is_run(
    host: &str,
    user: &str,
    bare_host: &str,
    bare_user: &str,
    port: u16,
    engines: &Vec<EngineBinary>,
    typed: Result<CommandLine, SshProbe>,
    bare: Result<CommandLine, SshProbe>,
)
    requires
        call_ensures(probe::ssh_host_probe, (host, user, port, engines), typed),
        call_ensures(probe::run_probe, (bare_host, bare_user, port, engines), bare),
        bare_host@ == text::trim(host@),
        bare_user@ == text::trim(user@),
    ensures
        typed is Ok <==> bare is Ok,
        typed matches Ok(call) ==> call@ == bare->Ok_0@,
        typed matches Err(failure) ==> failure@ == bare->Err_0@,
{
}

/// The output of a probe gives what it reports.
pub proof fn law_output_is_read(out: &str, read: (bool, Table), r: SshProbe)
    requires
        call_ensures(probe::parse_probe_output, (out,), read),
        call_ensures(probe::probe_answer, (out,), r),
    ensures
        read.0 <==> probe::answer(out@).reachable,
        read.1@ == probe::answer(out@).engines,
        r.reachable == read.0,
        r.engines@ == read.1@,
        r.error is None <==> r.reachable,
        r.error matches Some(message) ==> message@ == "no probe marker in output"@,
{
}

/// A probe whose call succeeded came to what its output says, and any other has failed.
pub proof fn law_probe_result(outcome: ProbeOutcome, r: SshProbe)
    requires
        call_ensures(probe::probe_result, (outcome,), r),
    ensures
        r@ == probe::probe_of(outcome),
        outcome matches ProbeOutcome::Ended { success: true, stdout } ==> valid_utf8(stdout@)
            ==> r@ == probe::answer(decode_utf8(stdout@)),
        !(outcome matches ProbeOutcome::Ended { success: true, .. }) ==> !r.reachable
            && r.error is Some,
{
}

// ---------------------------------------------------------------------------
// Attached workspaces
// ---------------------------------------------------------------------------
/// A request has what was typed in, without the white space around it, and is refused for the reason
/// that it is not good.
pub proof fn law_request_is_checked(
    host: &str,
    user: &str,
    port: u16,
    workspace_path: &str,
    remote_path: &str,
    r: Result<AttachRequest, String>,
)
    requires
        call_ensures(
            attach::ssh_host_attach,
            (host, user, port, workspace_path, remote_path),
            r,
        ),
    ensures
        r matches Ok(request) ==> {
            &&& request.host@ == text::trim(host@)
            &&& request.user@ == text::trim(user@)
            &&& request.port == port
            &&& request.workspace_path@ == text::trim(workspace_path@)
            &&& request.remote_path@ == text::trim(remote_path@)
        },
        r is Ok <==> {
            &&& probe::address_error(text::trim(host@), text::trim(user@), port) is None
            &&& !text::blank(workspace_path@)
            &&& attach_laws::starts_there(text::trim(remote_path@))
        },
        r matches Err(message) ==> attach::request_error(
            text::trim(host@),
            text::trim(user@),
            port,
            text::trim(workspace_path@),
            text::trim(remote_path@),
        ) == Some(message@),
{
    attach_laws::law_requests(
        text::trim(host@),
        text::trim(user@),
        port,
        text::trim(workspace_path@),
        text::trim(remote_path@),
    );
}

/// A plan is made exactly when the host was reached. It has the workspace of the request, the
/// metadata of the host, the found engines and the path there, and the last name of that path.
pub proof fn law_plan_is_made(
    request: &AttachRequest,
    probe: &SshProbe,
    engines: &Vec<EngineBinary>,
    found: Table,
    r: Result<AttachPlan, String>,
)
    requires
        call_ensures(attach::engine_paths, (engines, &probe.engines), found),
        call_ensures(attach::attach_plan, (request, probe, engines), r),
    ensures
        r is Ok <==> probe.reachable,
        r matches Ok(plan) ==> {
            &&& plan.workspace_path@ == request.workspace_path@
            &&& json::json_text(plan.meta@) == Some(
                attach::attached(
                    request.host@,
                    request.user@,
                    request.port,
                    found@,
                    request.remote_path@,
                ),
            )
            &&& paths::portable(request.remote_path@) ==> plan.name@ == paths::base_name(
                request.remote_path@,
            )
        },
        r matches Err(message) ==> message@ == (match probe.error {
            Some(reason) => reason@,
            None => "host unreachable"@,
        }),
        found@ == attach::paths_by_id(engines@, probe.engines@),
{
}

/// The metadata that is written is read back as what it was made of.
pub proof fn law_metadata_is_written(
    host: &str,
    user: &str,
    port: u16,
    engines: &Table,
    remote_path: &str,
    r: String,
)
    requires
        call_ensures(attach::attach_meta, (host, user, port, engines, remote_path), r),
    ensures
        json::json_text(r@) == Some(
            attach::attached(host@, user@, port, engines@, remote_path@),
        ),
{
}

/// A row is added exactly when none was there, and it has what the plan says.
pub proof fn law_row_is_added(updated: usize, plan: &AttachPlan, r: Option<NewRow>)
    requires
        call_ensures(attach::row_to_add, (updated, plan), r),
    ensures
        r is Some <==> updated == 0,
        r matches Some(row) ==> {
            &&& row.path@ == plan.workspace_path@
            &&& row.name@ == plan.name@
            &&& row.meta@ == plan.meta@
            &&& row.last_opened_at == 0
        },
{
}

} // verus!
