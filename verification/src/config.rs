//! The settings of the daemon.

use crate::text::text_view;
use vstd::prelude::*;

verus! {

/// The settings of the daemon. Paths are text.
#[derive(Debug, Clone)]
pub struct DaemonConfig {
    pub rules_path: Option<String>,
    pub whitelist_path: String,
    pub resolv_conf_path: String,
    pub table_family: String,
    pub table_name: String,
    pub v4_set: String,
    pub v6_set: String,
    pub dns_upstream_v4: String,
    pub dns_upstream_v6: String,
    pub debounce_ms: u64,
}

/// The settings, with strings taken by their characters.
pub struct ConfigView {
    pub rules_path: Option<Seq<char>>,
    pub whitelist_path: Seq<char>,
    pub resolv_conf_path: Seq<char>,
    pub table_family: Seq<char>,
    pub table_name: Seq<char>,
    pub v4_set: Seq<char>,
    pub v6_set: Seq<char>,
    pub dns_upstream_v4: Seq<char>,
    pub dns_upstream_v6: Seq<char>,
    pub debounce_ms: u64,
}

impl View for DaemonConfig {
    type V = ConfigView;

    open spec fn view(&self) -> ConfigView {
        ConfigView {
            rules_path: text_view(self.rules_path),
            whitelist_path: self.whitelist_path@,
            resolv_conf_path: self.resolv_conf_path@,
            table_family: self.table_family@,
            table_name: self.table_name@,
            v4_set: self.v4_set@,
            v6_set: self.v6_set@,
            dns_upstream_v4: self.dns_upstream_v4@,
            dns_upstream_v6: self.dns_upstream_v6@,
            debounce_ms: self.debounce_ms,
        }
    }
}

/// The settings that hold where nothing else is said.
pub open spec fn default_config() -> ConfigView {
    ConfigView {
        rules_path: None,
        whitelist_path: "/etc/nftables/whitelist.txt"@,
        resolv_conf_path: "/etc/resolv.conf"@,
        table_family: "inet"@,
        table_name: "filter"@,
        v4_set: "lan_whitelist_v4"@,
        v6_set: "lan_whitelist_v6"@,
        dns_upstream_v4: "auto"@,
        dns_upstream_v6: "auto"@,
        debounce_ms: 150,
    }
}

impl Default for DaemonConfig {
    fn default() -> (r: DaemonConfig)
        ensures
            r@ == default_config(),
    {
        DaemonConfig {
            rules_path: None,
            whitelist_path: "/etc/nftables/whitelist.txt".to_owned(),
            resolv_conf_path: "/etc/resolv.conf".to_owned(),
            table_family: "inet".to_owned(),
            table_name: "filter".to_owned(),
            v4_set: "lan_whitelist_v4".to_owned(),
            v6_set: "lan_whitelist_v6".to_owned(),
            dns_upstream_v4: "auto".to_owned(),
            dns_upstream_v6: "auto".to_owned(),
            debounce_ms: 150,
        }
    }
}

} // verus!
