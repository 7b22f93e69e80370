//! The rules that the gateway starts with.

use crate::config::{ConfigView, DaemonConfig};
use crate::nft::{base_parts, generate_base_ruleset, generate_dns_redirect_script, redirect_commands};
use crate::text::{has_text, has_text_chars, optional_text, texts, to_chars, unlines};
use vstd::prelude::*;

verus! {

// ---------------------------------------------------------------------------
// The search for a ruleset file
// ---------------------------------------------------------------------------

/// The state of the search for a ruleset file among the candidates: read one,
/// load one, or the search is over.
#[derive(Debug, Clone, Copy, PartialEq, Eq, Structural)]
pub enum SearchStep {
    Read(usize),
    Load(usize),
    Loaded(usize),
    Exhausted,
}

/// The paths to try, in order: that of the configuration, that of the environment.
pub open spec fn candidates(configured: Option<Seq<char>>, environment: Option<Seq<char>>) -> Seq<
    Seq<char>,
> {
    (match configured {
        Some(p) => seq![p],
        None => Seq::empty(),
    }) + (match environment {
        Some(p) => seq![p],
        None => Seq::empty(),
    })
}

/// Whether the content is that of a ruleset that filters what leaves the host.
pub open spec fn is_loadable(content: Option<Seq<char>>) -> bool {
    content matches Some(c) && has_text(c, "hook output"@)
}

/// The step that tries candidate `i` of `count`.
pub open spec fn try_candidate(i: int, count: nat) -> SearchStep {
    if i < count {
        SearchStep::Read(i as usize)
    } else {
        SearchStep::Exhausted
    }
}

/// Lists the paths to try.
pub fn rules_candidates(config: &DaemonConfig, environment: Option<&str>) -> (r: Vec<String>)
    ensures
        texts(r@) == candidates(config@.rules_path, optional_text(environment)),
{
    let mut r: Vec<String> = Vec::new();
    if let Some(p) = &config.rules_path {
        r.push(p.clone());
    }
    if let Some(p) = environment {
        r.push(p.to_owned());
    }
    assert(texts(r@) =~= candidates(config@.rules_path, optional_text(environment)));
    r
}

/// Decides how the search begins.
pub fn begin_search(count: usize) -> (r: SearchStep)
    ensures
        r == try_candidate(0, count as nat),
{
    if count > 0 {
        SearchStep::Read(0)
    } else {
        SearchStep::Exhausted
    }
}

/// Decides what follows the reading of candidate `i`; `content` is what
/// stands there, where it can be read.
pub fn after_read(i: usize, count: usize, content: Option<&str>) -> (r: SearchStep)
    ensures
        r == (if is_loadable(optional_text(content)) {
            SearchStep::Load(i)
        } else {
            try_candidate(i + 1, count as nat)
        }),
{
    let loadable = match content {
        Some(c) => {
            let chars = to_chars(c);
            let needle = to_chars("hook output");
            has_text_chars(chars.as_slice(), needle.as_slice())
        },
        None => false,
    };
    if loadable {
        SearchStep::Load(i)
    } else if i < count && i + 1 < count {
        SearchStep::Read(i + 1)
    } else {
        SearchStep::Exhausted
    }
}

/// Decides what follows the loading of candidate `i`.
pub fn after_load(i: usize, count: usize, loaded: bool) -> (r: SearchStep)
    ensures
        r == (if loaded {
            SearchStep::Loaded(i)
        } else {
            try_candidate(i + 1, count as nat)
        }),
{
    if loaded {
        SearchStep::Loaded(i)
    } else if i < count && i + 1 < count {
        SearchStep::Read(i + 1)
    } else {
        SearchStep::Exhausted
    }
}

// ---------------------------------------------------------------------------
// What is applied
// ---------------------------------------------------------------------------

/// What to apply once the search is over.
pub enum StartupAction {
    /// Nothing: the loaded rules stand as they are.
    Keep,
    /// The script that redirects DNS queries in the loaded rules.
    Redirect(String),
    /// The generated ruleset.
    Base(String),
}

/// What to apply, with strings taken by their characters.
pub enum StartupView {
    Keep,
    Redirect(Seq<char>),
    Base(Seq<char>),
}

impl View for StartupAction {
    type V = StartupView;

    open spec fn view(&self) -> StartupView {
        match self {
            StartupAction::Keep => StartupView::Keep,
            StartupAction::Redirect(s) => StartupView::Redirect(s@),
            StartupAction::Base(s) => StartupView::Base(s@),
        }
    }
}

/// What to apply: on loaded rules the DNS redirection, if there is a server to
/// redirect to; else the generated ruleset.
pub open spec fn startup_action(
    config: ConfigView,
    dns_v4: Option<Seq<char>>,
    dns_v6: Option<Seq<char>>,
    rules_loaded: bool,
) -> StartupView {
    if !rules_loaded {
        StartupView::Base(
            unlines(
                base_parts(
                    config.table_family,
                    config.table_name,
                    config.v4_set,
                    config.v6_set,
                    dns_v4,
                    dns_v6,
                ),
            ),
        )
    } else if dns_v4 is Some || dns_v6 is Some {
        StartupView::Redirect(
            unlines(redirect_commands(config.table_family, config.table_name, dns_v4, dns_v6)),
        )
    } else {
        StartupView::Keep
    }
}

/// Decides what to apply once the search for a ruleset file is over.
pub fn initialize_rules_and_dns(
    config: &DaemonConfig,
    dns_v4: Option<&str>,
    dns_v6: Option<&str>,
    rules_loaded: bool,
) -> (r: StartupAction)
    ensures
        r@ == startup_action(config@, optional_text(dns_v4), optional_text(dns_v6), rules_loaded),
{
    if rules_loaded {
        if dns_v4.is_some() || dns_v6.is_some() {
            StartupAction::Redirect(
                generate_dns_redirect_script(
                    config.table_family.as_str(),
                    config.table_name.as_str(),
                    dns_v4,
                    dns_v6,
                ),
            )
        } else {
            StartupAction::Keep
        }
    } else {
        StartupAction::Base(
            generate_base_ruleset(
                config.table_family.as_str(),
                config.table_name.as_str(),
                config.v4_set.as_str(),
                config.v6_set.as_str(),
                dns_v4,
                dns_v6,
            ),
        )
    }
}

// ---------------------------------------------------------------------------
// The whole search
// ---------------------------------------------------------------------------

/// The candidate that is loaded if the search goes on from the step: `contents`
/// is what stands at each path, and `loads` whether loading it succeeds.
pub open spec fn search_from(
    step: SearchStep,
    contents: Seq<Option<Seq<char>>>,
    loads: Seq<bool>,
) -> Option<int>
    decreases (match step {
        SearchStep::Read(i) => 2 * (contents.len() - i),
        SearchStep::Load(i) => 2 * (contents.len() - i) - 1,
        _ => 0,
    }),
    when contents.len() <= usize::MAX
{
    match step {
        SearchStep::Read(i) => if i >= contents.len() {
            None
        } else if is_loadable(contents[i as int]) {
            search_from(SearchStep::Load(i), contents, loads)
        } else {
            search_from(try_candidate(i + 1, contents.len()), contents, loads)
        },
        SearchStep::Load(i) => if i >= contents.len() {
            None
        } else if loads[i as int] {
            search_from(SearchStep::Loaded(i), contents, loads)
        } else {
            search_from(try_candidate(i + 1, contents.len()), contents, loads)
        },
        SearchStep::Loaded(i) => Some(i as int),
        SearchStep::Exhausted => None,
    }
}

/// Whether candidate `i` is one that the gateway can start with.
pub open spec fn is_usable(contents: Seq<Option<Seq<char>>>, loads: Seq<bool>, i: int) -> bool {
    is_loadable(contents[i]) && loads[i]
}

/// The search gives the first candidate that filters what leaves the host and
/// can be loaded, and gives none only if there is none.
pub proof fn the_first_usable_ruleset_is_loaded(
    start: usize,
    contents: Seq<Option<Seq<char>>>,
    loads: Seq<bool>,
)
    requires
        contents.len() <= usize::MAX,
        start <= contents.len(),
    ensures
        match search_from(try_candidate(start as int, contents.len()), contents, loads) {
            Some(k) => start <= k < contents.len() && is_usable(contents, loads, k)
                && forall|i: int| start <= i < k ==> !#[trigger] is_usable(contents, loads, i),
            None => forall|i: int|
                start <= i < contents.len() ==> !#[trigger] is_usable(contents, loads, i),
        },
    decreases contents.len() - start,
{
    reveal_with_fuel(search_from, 4);
    if start < contents.len() {
        the_first_usable_ruleset_is_loaded((start + 1) as usize, contents, loads);
    }
}

} // verus!
