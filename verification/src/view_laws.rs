//! What the views show: each field as it is, strings by their characters.

use crate::cli::{
    content_view, options_view, CheckRequest, CheckView, CustomCommand, Invocation, InvocationView,
    OptionsView, RunOptions,
};
use crate::config::DaemonConfig;
use crate::dns::HostNetwork;
use crate::log::{log_texts, LogLine, LogText};
use crate::nft::NftReport;
use crate::parser::{
    entries_view, line_view, EntryText, EntryTexts, EntryType, WhitelistEntries,
};
use crate::router::{
    interface_view, interface_views, route_view, DefaultRoute, InterfaceIp, InterfaceView,
    RouteView,
};
use crate::startup::{StartupAction, StartupView};
use crate::text::{optional_text, text_view, texts};
use vstd::prelude::*;

verus! {

/// The settings show each field as it is.
pub proof fn settings_are_shown(config: DaemonConfig)
    ensures
        config@.rules_path is Some <==> config.rules_path is Some,
        config.rules_path matches Some(path) ==> config@.rules_path == Some(path@),
        config@.whitelist_path == config.whitelist_path@,
        config@.resolv_conf_path == config.resolv_conf_path@,
        config@.table_family == config.table_family@,
        config@.table_name == config.table_name@,
        config@.v4_set == config.v4_set@,
        config@.v6_set == config.v6_set@,
        config@.dns_upstream_v4 == config.dns_upstream_v4@,
        config@.dns_upstream_v6 == config.dns_upstream_v6@,
        config@.debounce_ms == config.debounce_ms,
{
}

/// Lists show their items in order, and options show whether there is one.
pub proof fn texts_are_shown(v: Seq<String>, log: Seq<LogLine>, s: String, t: &str, i: int)
    ensures
        texts(v).len() == v.len(),
        0 <= i < v.len() ==> texts(v)[i] == v[i]@,
        log_texts(log).len() == log.len(),
        0 <= i < log.len() ==> log_texts(log)[i] == log[i]@,
        LogLine::Stdout(s)@ == LogText::Stdout(s@),
        LogLine::Stderr(s)@ == LogText::Stderr(s@),
        text_view(Some(s)) == Some(s@),
        text_view(None) is None,
        optional_text(Some(t)) == Some(t@),
        optional_text(None) is None,
        content_view(Ok(s)) == Ok::<_, Seq<char>>(s@),
        content_view(Err(s)) == Err::<Seq<char>, _>(s@),
{
}

/// The network shows its interfaces in order and the route of each family.
pub proof fn the_network_is_shown(net: HostNetwork, iface: InterfaceIp, route: DefaultRoute, k: int)
    ensures
        iface@ == (InterfaceView { ifname: iface.ifname@, ip: iface.ip, prefix: iface.prefix }),
        route@ == (RouteView { ifname: route.ifname@, gateway: route.gateway }),
        net@.interfaces.len() == net.interfaces@.len(),
        0 <= k < net.interfaces@.len() ==> net@.interfaces[k] == net.interfaces@[k]@,
        net@.interfaces == interface_views(net.interfaces@),
        net.v4_default == Some(route) ==> net@.v4_default == Some(route@),
        net.v4_default is None ==> net@.v4_default is None,
        net.v6_default == Some(route) ==> net@.v6_default == Some(route@),
        net.v6_default is None ==> net@.v6_default is None,
        route_view(Some(route)) == Some(route@),
        route_view(None) is None,
        interface_view(Some(iface)) == Some(iface@),
        interface_view(None) is None,
{
}

/// Entries show their family and text.
pub proof fn entries_are_shown(entries: WhitelistEntries, s: String)
    ensures
        EntryType::V4(s)@ == EntryText::V4(s@),
        EntryType::V6(s)@ == EntryText::V6(s@),
        entries@.v4 == texts(entries.v4@),
        entries@.v6 == texts(entries.v6@),
        entries_view(Ok(entries)) == Ok::<_, Seq<char>>(entries@),
        entries_view(Err(s)) == Err::<EntryTexts, _>(s@),
        line_view(Ok(Some(EntryType::V4(s)))) == Ok::<_, Seq<char>>(Some(EntryText::V4(s@))),
        line_view(Ok(Some(EntryType::V6(s)))) == Ok::<_, Seq<char>>(Some(EntryText::V6(s@))),
        line_view(Ok(None)) == Ok::<Option<EntryText>, Seq<char>>(None),
        line_view(Err(s)) == Err::<Option<EntryText>, _>(s@),
{
}

/// What is to be done shows what it is, with its texts.
pub proof fn decisions_are_shown(
    s: String,
    report: NftReport,
    command: CustomCommand,
    options: RunOptions,
    request: CheckRequest,
    strict: bool,
)
    ensures
        StartupAction::Keep@ == StartupView::Keep,
        StartupAction::Redirect(s)@ == StartupView::Redirect(s@),
        StartupAction::Base(s)@ == StartupView::Base(s@),
        report@.result is Ok <==> report.result is Ok,
        report.result matches Err(e) ==> report@.result == Err::<(), _>(e@),
        report@.log is Some <==> report.log is Some,
        report.log matches Some(line) ==> report@.log == Some(line@),
        CheckRequest::Usage@ == CheckView::Usage,
        CheckRequest::MissingPath@ == CheckView::MissingPath,
        (CheckRequest::File { path: s, strict })@ == (CheckView::File { path: s@, strict }),
        command@.program == command.program@,
        command@.args == texts(command.args@),
        options@.config == options.config@,
        options.command == Some(command) ==> options@.command == Some(command@),
        options.command is None ==> options@.command is None,
        options_view(Ok(options)) == Ok::<_, Seq<char>>(options@),
        options_view(Err(s)) == Err::<OptionsView, _>(s@),
        Invocation::Help@ == InvocationView::Help,
        Invocation::Check(request)@ == InvocationView::Check(request@),
        Invocation::Run(Ok(options))@ == InvocationView::Run(Ok(options@)),
        Invocation::Run(Err(s))@ == InvocationView::Run(Err(s@)),
{
}

} // verus!
