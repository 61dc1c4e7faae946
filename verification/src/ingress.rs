//! Ingress rules: which service answers a request.

use vstd::prelude::*;
use vstd::string::*;
use crate::config::IngressRule;
use crate::text;

verus! {

/// The directory in the home directory that holds the configuration.
pub const CONFIG_DIR: &'static str = ".cloudflared";

/// The configuration file in that directory.
pub const CONFIG_YAML: &'static str = "config.yaml";

/// The configuration file of the whole system.
pub const SYSTEM_CONFIG: &'static str = "/etc/cloudflared/config.yaml";

/// Why a list of rules cannot be used.
#[derive(Debug, Clone, Copy, PartialEq, Eq, Structural)]
pub enum RulesError {
    /// There are no rules.
    Empty,
    /// The last rule is for one host only.
    NoCatchAll,
}

/// The formats of a configuration file.
#[derive(Debug, Clone, Copy, PartialEq, Eq, Structural)]
pub enum ConfigFormat {
    Json,
    Yaml,
}

/// Why no rules could be loaded.
#[derive(Debug)]
pub enum LoadError {
    /// The file with this path cannot be read.
    Read { path: String, cause: String },
    /// The file with this path is no document with rules in this format.
    Parse { format: ConfigFormat, path: String, cause: String },
    /// The rules cannot be used.
    Rules(RulesError),
}

/// What a list of rules has to be: not empty, with a rule for every host last.
pub open spec fn valid_rules(rules: Seq<IngressRule>) -> bool {
    rules.len() > 0 && rules.last().hostname@.len() == 0
}

/// Checks a list of rules.
pub fn validate_rules(rules: &[IngressRule]) -> (r: Result<(), RulesError>)
    ensures
        r is Ok <==> valid_rules(rules@),
        r == Err::<(), RulesError>(RulesError::Empty) <==> rules@.len() == 0,
        r == Err::<(), RulesError>(RulesError::NoCatchAll) <==> rules@.len() > 0
            && rules@.last().hostname@.len() > 0,
{
    let n = rules.len();
    if n == 0 {
        return Err(RulesError::Empty);
    }
    if !rules[n - 1].hostname.as_str().is_empty() {
        return Err(RulesError::NoCatchAll);
    }
    Ok(())
}

impl RulesError {
    /// What the error says.
    pub open spec fn spec_message(self) -> Seq<char> {
        match self {
            RulesError::Empty => "Config file has no ingress rules"@,
            RulesError::NoCatchAll =>
                "Last ingress rule must be a catch-all (no hostname). Add:\n  - service: http_status:404"@,
        }
    }

    /// What the error says.
    pub fn message(&self) -> (r: String)
        ensures
            r@ == self.spec_message(),
    {
        match self {
            RulesError::Empty => "Config file has no ingress rules".to_string(),
            RulesError::NoCatchAll =>
                "Last ingress rule must be a catch-all (no hostname). Add:\n  - service: http_status:404".to_string(),
        }
    }
}

impl LoadError {
    /// What the error says.
    pub open spec fn spec_message(self) -> Seq<char> {
        match self {
            LoadError::Read { path, .. } => "Cannot read config file: "@ + path@,
            LoadError::Parse { format: ConfigFormat::Json, path, .. } => "Invalid JSON in "@ + path@,
            LoadError::Parse { format: ConfigFormat::Yaml, path, .. } => "Invalid YAML in "@ + path@,
            LoadError::Rules(e) => e.spec_message(),
        }
    }

    /// What the error says.
    pub fn message(&self) -> (r: String)
        ensures
            r@ == self.spec_message(),
    {
        let (start, path) = match self {
            LoadError::Read { path, .. } => ("Cannot read config file: ", path),
            LoadError::Parse { format: ConfigFormat::Json, path, .. } => ("Invalid JSON in ", path),
            LoadError::Parse { format: ConfigFormat::Yaml, path, .. } => ("Invalid YAML in ", path),
            LoadError::Rules(e) => {
                return e.message();
            },
        };
        let mut r = start.to_string();
        r.append(path.as_str());
        r
    }

    /// What is behind the error, where it came from outside.
    pub open spec fn spec_cause(self) -> Option<Seq<char>> {
        match self {
            LoadError::Read { cause, .. } => Some(cause@),
            LoadError::Parse { cause, .. } => Some(cause@),
            LoadError::Rules(_) => None,
        }
    }

    /// What is behind the error, where it came from outside.
    pub fn cause(&self) -> (r: Option<String>)
        ensures
            match r {
                Some(t) => self.spec_cause() == Some(t@),
                None => self.spec_cause() is None,
            },
    {
        match self {
            LoadError::Read { cause, .. } => Some(cause.as_str().to_string()),
            LoadError::Parse { cause, .. } => Some(cause.as_str().to_string()),
            LoadError::Rules(_) => None,
        }
    }
}

/// The format of a file with the given extension.
pub open spec fn format_of(extension: Option<&str>) -> ConfigFormat {
    if extension matches Some(e) && e@ == "json"@ {
        ConfigFormat::Json
    } else {
        ConfigFormat::Yaml
    }
}

/// The format of a file with the given extension.
pub fn config_format(extension: Option<&str>) -> (f: ConfigFormat)
    ensures
        f == format_of(extension),
{
    match extension {
        Some(e) => if text::same_text(e, "json") {
            ConfigFormat::Json
        } else {
            ConfigFormat::Yaml
        },
        None => ConfigFormat::Yaml,
    }
}

/// Whether `r` is what comes of loading rules from a document that was read as
/// `parsed`.
pub open spec fn is_loaded(
    path: Seq<char>,
    format: ConfigFormat,
    parsed: Result<Vec<IngressRule>, String>,
    r: Result<Vec<IngressRule>, LoadError>,
) -> bool {
    match parsed {
        Err(e) => r matches Err(LoadError::Parse { format: f, path: p, cause }) && f == format && p@
            == path && cause == e,
        Ok(rules) => if valid_rules(rules@) {
            r == Ok::<Vec<IngressRule>, LoadError>(rules)
        } else if rules@.len() == 0 {
            r matches Err(LoadError::Rules(RulesError::Empty))
        } else {
            r matches Err(LoadError::Rules(RulesError::NoCatchAll))
        },
    }
}

/// Accepts the rules in the document that was read from a file, where there is
/// one and its rules can be used.
pub fn loaded_rules(
    path: &str,
    format: ConfigFormat,
    parsed: Result<Vec<IngressRule>, String>,
) -> (r: Result<Vec<IngressRule>, LoadError>)
    ensures
        is_loaded(path@, format, parsed, r),
{
    let rules = match parsed {
        Err(cause) => {
            return Err(LoadError::Parse { format, path: path.to_string(), cause });
        },
        Ok(rules) => rules,
    };
    match validate_rules(rules.as_slice()) {
        Ok(()) => Ok(rules),
        Err(e) => Err(LoadError::Rules(e)),
    }
}

/// Loads rules from the content of a file, where it could be read. The content
/// is handed to `json` or to `yaml`, which read the document {ingress: [..]};
/// the extension of the file says to which.
pub fn load_from_file<
    J: FnOnce(String) -> Result<Vec<IngressRule>, String>,
    Y: FnOnce(String) -> Result<Vec<IngressRule>, String>,
>(
    path: &str,
    extension: Option<&str>,
    content: Result<String, String>,
    json: J,
    yaml: Y,
) -> (r: Result<Vec<IngressRule>, LoadError>)
    requires
        forall|t: String| call_requires(json, (t,)),
        forall|t: String| call_requires(yaml, (t,)),
    ensures
        match content {
            Err(e) => r matches Err(LoadError::Read { path: p, cause }) && p@ == path@ && cause
                == e,
            Ok(t) => if extension matches Some(e) && e@ == "json"@ {
                exists|parsed: Result<Vec<IngressRule>, String>|
                    #![trigger call_ensures(json, (t,), parsed)]
                    call_ensures(json, (t,), parsed) && is_loaded(
                        path@,
                        ConfigFormat::Json,
                        parsed,
                        r,
                    )
            } else {
                exists|parsed: Result<Vec<IngressRule>, String>|
                    #![trigger call_ensures(yaml, (t,), parsed)]
                    call_ensures(yaml, (t,), parsed) && is_loaded(
                        path@,
                        ConfigFormat::Yaml,
                        parsed,
                        r,
                    )
            },
        },
        r matches Ok(rules) ==> valid_rules(rules@),
{
    match content {
        Err(cause) => Err(LoadError::Read { path: path.to_string(), cause }),
        Ok(t) => {
            let format = config_format(extension);
            let parsed = match format {
                ConfigFormat::Json => json(t),
                ConfigFormat::Yaml => yaml(t),
            };
            loaded_rules(path, format, parsed)
        },
    }
}

/// The configuration files that are looked for.
#[derive(Debug, Clone, Copy, PartialEq, Eq, Structural)]
pub enum ConfigPlace {
    /// The file in the home directory.
    Home,
    /// The file of the whole system.
    System,
}

/// The configuration file to use, from which of the two exist.
pub open spec fn default_place(home: bool, system: bool) -> Option<ConfigPlace> {
    if home {
        Some(ConfigPlace::Home)
    } else if system {
        Some(ConfigPlace::System)
    } else {
        None
    }
}

/// The configuration file to use, from which of the two exist: the file in the
/// home directory, else the file of the whole system.
pub fn default_config_path(home: bool, system: bool) -> (r: Option<ConfigPlace>)
    ensures
        r == default_place(home, system),
{
    if home {
        Some(ConfigPlace::Home)
    } else if system {
        Some(ConfigPlace::System)
    } else {
        None
    }
}

/// Whether rule `i` is the first that is for a request.
pub open spec fn first_match(
    rules: Seq<IngressRule>,
    host: Seq<char>,
    path: Seq<char>,
    i: int,
) -> bool {
    &&& 0 <= i < rules.len()
    &&& rules[i].applies(host, path)
    &&& forall|j: int| 0 <= j < i ==> !(#[trigger] rules[j]).applies(host, path)
}

/// Whether `r` is the first rule that is for a request.
pub open spec fn is_resolved(
    rules: Seq<IngressRule>,
    host: Seq<char>,
    path: Seq<char>,
    r: Option<IngressRule>,
) -> bool {
    &&& r matches Some(rule) ==> exists|i: int| #[trigger]
        first_match(rules, host, path, i) && rules[i] == rule
    &&& r is None <==> forall|i: int|
        0 <= i < rules.len() ==> !(#[trigger] rules[i]).applies(host, path)
}

/// Finds the first rule that is for a request.
pub fn resolve(rules: &[IngressRule], host: &str, path: &str) -> (r: Option<IngressRule>)
    ensures
        is_resolved(rules@, host@, path@, r),
{
    let n = rules.len();
    let mut i: usize = 0;
    while i < n
        invariant
            i <= n,
            n == rules@.len(),
            forall|j: int| 0 <= j < i ==> !(#[trigger] rules@[j]).applies(host@, path@),
        decreases n - i,
    {
        if rules[i].matches(host, path) {
            assert(first_match(rules@, host@, path@, i as int));
            return Some(rules[i].clone());
        }
        i = i + 1;
    }
    None
}

/// In a table of valid rules, one rule, and only one, is the first that is for
/// a request.
pub proof fn law_every_request_has_a_rule(
    rules: Seq<IngressRule>,
    host: Seq<char>,
    path: Seq<char>,
)
    requires
        valid_rules(rules),
    ensures
        exists|i: int| first_match(rules, host, path, i),
        forall|i: int, j: int|
            #![trigger first_match(rules, host, path, i), first_match(rules, host, path, j)]
            first_match(rules, host, path, i) && first_match(rules, host, path, j) ==> i == j,
{
    let last = rules.len() - 1;
    assert(rules[last].applies(host, path));
    lemma_first(rules, host, path, last);
}

/// Where a rule is for a request, there is a first.
proof fn lemma_first(rules: Seq<IngressRule>, host: Seq<char>, path: Seq<char>, k: int)
    requires
        0 <= k < rules.len(),
        rules[k].applies(host, path),
    ensures
        exists|i: int| first_match(rules, host, path, i),
    decreases k,
{
    if exists|j: int| 0 <= j < k && (#[trigger] rules[j]).applies(host, path) {
        let j = choose|j: int| 0 <= j < k && (#[trigger] rules[j]).applies(host, path);
        lemma_first(rules, host, path, j);
    } else {
        assert(first_match(rules, host, path, k));
    }
}

/// What becomes of the rules in use when the file was read again.
pub struct Reload {
    /// The rules to use from now on.
    pub rules: Vec<IngressRule>,
    /// Why the rules stay as they are, where they do.
    pub error: Option<LoadError>,
}

/// Whether `r` is what becomes of the rules in use.
pub open spec fn is_reload(
    current: Vec<IngressRule>,
    loaded: Result<Vec<IngressRule>, LoadError>,
    r: Reload,
) -> bool {
    match loaded {
        Ok(rules) => r.rules == rules && r.error is None,
        Err(e) => r.rules == current && r.error == Some(e),
    }
}

/// Takes over rules that were loaded again; where none were, those in use stay.
/// So rules that can be used are only ever replaced by such rules.
pub fn reload(current: Vec<IngressRule>, loaded: Result<Vec<IngressRule>, LoadError>) -> (r: Reload)
    ensures
        is_reload(current, loaded, r),
        valid_rules(current@) && (loaded matches Ok(rules) ==> valid_rules(rules@))
            ==> valid_rules(r.rules@),
{
    match loaded {
        Ok(rules) => Reload { rules, error: None },
        Err(e) => Reload { rules: current, error: Some(e) },
    }
}

/// The line about rule `i`, counted from 0.
pub open spec fn rule_line(i: nat, rule: IngressRule) -> Seq<char> {
    let number = "  Rule "@ + text::decimal(i + 1) + ": "@;
    if rule.hostname@.len() == 0 {
        number + "(catch-all) → "@ + rule.service@
    } else if rule.path@.len() == 0 {
        number + rule.hostname@ + "  →  "@ + rule.service@
    } else {
        number + rule.hostname@ + "/"@ + rule.path@ + "  →  "@ + rule.service@
    }
}

/// Writes the line about rule `i`.
fn print_rule(i: u64, rule: &IngressRule) -> (line: String)
    requires
        i < u64::MAX,
    ensures
        line@ == rule_line(i as nat, *rule),
{
    let mut line = "  Rule ".to_string();
    line.append(text::decimal_text(i + 1).as_str());
    line.append(": ");
    if rule.hostname.as_str().is_empty() {
        line.append("(catch-all) → ");
    } else {
        line.append(rule.hostname.as_str());
        if !rule.path.as_str().is_empty() {
            line.append("/");
            line.append(rule.path.as_str());
        }
        line.append("  →  ");
    }
    line.append(rule.service.as_str());
    line
}

/// Describes the rules, a line for each under a heading.
pub fn print_rules(rules: &[IngressRule]) -> (lines: Vec<String>)
    ensures
        lines@.len() == 1 + rules@.len(),
        lines@[0]@ == "Loaded "@ + text::decimal(rules@.len()) + " ingress rule(s):"@,
        forall|i: int|
            0 <= i < rules@.len() ==> #[trigger] lines@[i + 1]@ == rule_line(i as nat, rules@[i]),
{
    let n = rules.len();
    let mut heading = "Loaded ".to_string();
    heading.append(text::decimal_text(n as u64).as_str());
    heading.append(" ingress rule(s):");
    let mut lines: Vec<String> = Vec::new();
    lines.push(heading);
    let ghost first = lines@[0]@;
    let mut i: usize = 0;
    while i < n
        invariant
            i <= n,
            n == rules@.len(),
            lines@.len() == 1 + i,
            lines@[0]@ == first,
            forall|k: int|
                0 <= k < i ==> #[trigger] lines@[k + 1]@ == rule_line(k as nat, rules@[k]),
        decreases n - i,
    {
        let ghost before = lines@;
        lines.push(print_rule(i as u64, &rules[i]));
        assert forall|k: int| 0 <= k < i implies #[trigger] lines@[k + 1]@ == rule_line(
            k as nat,
            rules@[k],
        ) by {
            assert(lines@[k + 1] == before[k + 1]);
        }
        i = i + 1;
    }
    lines
}

} // verus!
