//! The organ SDK: the `--key value` argument convention and the organ
//! metadata shared by all organs.

use vstd::prelude::*;
use crate::dict::StrMap;
use crate::text::{ascii_lower, debug_strings, push_text, same_text, strings_debug, to_ascii_lower};
use crate::text::{chars_of, find_char_idx, has_prefix, lemma_find_char, skip_chars, slice_chars, split_once, string_from_chars, parse_u64, parse_u64_str};

verus! {

/// Universal CLI argument set of an organ: the operation selectors and the
/// remaining `--key value` parameters.
#[derive(Debug, Clone)]
pub struct OrganArgs {
    pub tool: Option<String>,
    pub sense: Option<String>,
    pub stimulus: Option<String>,
    pub reflex: Option<String>,
    pub action: Option<String>,
    pub params: StrMap,
}

/// The abstract argument set: the five selectors and the parameters.
pub type ArgsView = (
    Option<Seq<char>>,
    Option<Seq<char>>,
    Option<Seq<char>>,
    Option<Seq<char>>,
    Option<Seq<char>>,
    Map<Seq<char>, Seq<char>>,
);

pub open spec fn opt_view(o: Option<String>) -> Option<Seq<char>> {
    match o {
        Some(s) => Some(s@),
        None => None,
    }
}

impl View for OrganArgs {
    type V = ArgsView;

    open spec fn view(&self) -> ArgsView {
        (
            opt_view(self.tool),
            opt_view(self.sense),
            opt_view(self.stimulus),
            opt_view(self.reflex),
            opt_view(self.action),
            self.params@,
        )
    }
}

/// The requested operation: the first of tool, sense, stimulus, reflex
/// and action that is given, or empty.
pub open spec fn op_of(a: ArgsView) -> Seq<char> {
    match a.0 {
        Some(t) => t,
        None => match a.1 {
            Some(s) => s,
            None => match a.2 {
                Some(x) => x,
                None => match a.3 {
                    Some(x) => x,
                    None => match a.4 {
                        Some(x) => x,
                        None => Seq::empty(),
                    },
                },
            },
        },
    }
}

/// The argument set with nothing given.
pub open spec fn no_args() -> ArgsView {
    (None, None, None, None, None, Map::empty())
}

/// Registering `key = val`: the five selector keys set their selector,
/// any other key sets a parameter.
pub open spec fn register(a: ArgsView, key: Seq<char>, val: Seq<char>) -> ArgsView {
    if key == "tool"@ {
        (Some(val), a.1, a.2, a.3, a.4, a.5)
    } else if key == "sense"@ {
        (a.0, Some(val), a.2, a.3, a.4, a.5)
    } else if key == "stimulus"@ {
        (a.0, a.1, Some(val), a.3, a.4, a.5)
    } else if key == "reflex"@ {
        (a.0, a.1, a.2, Some(val), a.4, a.5)
    } else if key == "action"@ {
        (a.0, a.1, a.2, a.3, Some(val), a.5)
    } else {
        (a.0, a.1, a.2, a.3, a.4, a.5.insert(key, val))
    }
}

/// The argument set after reading `items` from `a`: `--key=value`,
/// `--key value` (when the next item does not start with `--`) and a bare
/// `--flag` (meaning "true") register parameters; the first other item is
/// the action, and later ones are ignored.
pub open spec fn parse_items(a: ArgsView, items: Seq<Seq<char>>) -> ArgsView
    decreases items.len(),
{
    if items.len() == 0 {
        a
    } else {
        let item = items[0];
        if "--"@.is_prefix_of(item) {
            let key = item.skip(2);
            match split_once(key, '=') {
                Some(kv) => parse_items(register(a, kv.0, kv.1), items.drop_first()),
                None => if items.len() > 1 && !"--"@.is_prefix_of(items[1]) {
                    parse_items(register(a, key, items[1]), items.skip(2))
                } else {
                    parse_items(register(a, key, "true"@), items.drop_first())
                },
            }
        } else if a.4 is None {
            parse_items((a.0, a.1, a.2, a.3, Some(item), a.5), items.drop_first())
        } else {
            parse_items(a, items.drop_first())
        }
    }
}

pub open spec fn items_view(items: Seq<&str>) -> Seq<Seq<char>> {
    items.map_values(|s: &str| s@)
}

impl Default for OrganArgs {
    /// The argument set with nothing given.
    fn default() -> (r: OrganArgs)
        ensures
            r@ == no_args(),
    {
        OrganArgs::new()
    }
}

impl OrganArgs {
    /// The argument set with nothing given.
    pub fn new() -> (r: OrganArgs)
        ensures
            r@ == no_args(),
    {
        OrganArgs {
            tool: None,
            sense: None,
            stimulus: None,
            reflex: None,
            action: None,
            params: StrMap::new(),
        }
    }

    /// Set `key` to `val`.
    pub fn register_param(&mut self, key: &str, val: &str)
        ensures
            final(self)@ == register(old(self)@, key@, val@),
    {
        let v = String::from_str(val);
        let k = String::from_str(key);
        let tool = String::from_str("tool");
        let sense = String::from_str("sense");
        let stimulus = String::from_str("stimulus");
        let reflex = String::from_str("reflex");
        let action = String::from_str("action");
        if k == tool {
            self.tool = Some(v);
        } else if k == sense {
            self.sense = Some(v);
        } else if k == stimulus {
            self.stimulus = Some(v);
        } else if k == reflex {
            self.reflex = Some(v);
        } else if k == action {
            self.action = Some(v);
        } else {
            self.params.insert(k, v);
        }
    }

    /// Parse arguments in the `--key value` convention. Every parameter key
    /// is a non-selector key that some argument names as `--k` or `--k=...`,
    /// and each of tool, sense, stimulus and reflex is set exactly when some
    /// argument names it so.
    pub fn from_args(args: &[&str]) -> (r: OrganArgs)
        ensures
            r@ == parse_items(no_args(), items_view(args@)),
            forall|k: Seq<char>|
                #[trigger] r@.5.contains_key(k) <==> (!selector_key(k) && !k.contains('=') && names_key(
                    items_view(args@),
                    k,
                )),
            r@.0 is Some <==> names_key(items_view(args@), "tool"@),
            r@.1 is Some <==> names_key(items_view(args@), "sense"@),
            r@.2 is Some <==> names_key(items_view(args@), "stimulus"@),
            r@.3 is Some <==> names_key(items_view(args@), "reflex"@),
    {
        let mut parsed = OrganArgs::new();
        let ghost iv = items_view(args@);
        let dashes = chars_of("--");
        proof {
            reveal_strlit("--");
        }
        let mut i: usize = 0;
        assert(iv.skip(0) =~= iv);
        while i < args.len()
            invariant
                i <= args@.len(),
                iv == items_view(args@),
                dashes@ == "--"@,
                dashes@.len() == 2,
                parse_items(no_args(), iv) == parse_items(parsed@, iv.skip(i as int)),
            decreases args@.len() - i,
        {
            let item = chars_of(args[i]);
            assert(iv.skip(i as int)[0] == item@);
            assert(iv.skip(i as int).drop_first() =~= iv.skip(i + 1));
            if has_prefix(item.as_slice(), dashes.as_slice()) {
                let key = skip_chars(item.as_slice(), 2);
                let eq = find_char_idx(key.as_slice(), '=');
                proof {
                    lemma_find_char(key@, '=');
                }
                match eq {
                    Some(e) => {
                        let kl = key.len();
                        assert(e < kl);
                        let k = slice_chars(key.as_slice(), 0, e);
                        let v = skip_chars(key.as_slice(), e + 1);
                        assert(k@ =~= key@.take(e as int));
                        let ks = string_from_chars(k.as_slice());
                        let vs = string_from_chars(v.as_slice());
                        parsed.register_param(ks.as_str(), vs.as_str());
                    },
                    None => {
                        let ks = string_from_chars(key.as_slice());
                        let mut took_next = false;
                        if i + 1 < args.len() {
                            let next = chars_of(args[i + 1]);
                            assert(iv.skip(i as int)[1] == next@);
                            if !has_prefix(next.as_slice(), dashes.as_slice()) {
                                parsed.register_param(ks.as_str(), args[i + 1]);
                                assert(iv.skip(i as int).skip(2) =~= iv.skip(i + 2));
                                i = i + 1;
                                took_next = true;
                            }
                        }
                        if !took_next {
                            parsed.register_param(ks.as_str(), "true");
                        }
                    },
                }
            } else if parsed.action.is_none() {
                parsed.action = Some(String::from_str(args[i]));
            }
            i = i + 1;
        }
        assert(iv.skip(i as int) =~= Seq::<Seq<char>>::empty());
        proof {
            assert forall|k: Seq<char>|
                #[trigger] parsed@.5.contains_key(k) <==> (!selector_key(k) && !k.contains('=') && names_key(iv, k)) by {
                lemma_args_come_from_items(iv, k);
            }
            lemma_args_come_from_items(iv, "tool"@);
        }
        parsed
    }

    /// The requested operation: the first of tool, sense, stimulus, reflex
    /// and action that is given, or `""`.
    pub fn op(&self) -> (r: &str)
        ensures
            r@ == op_of(self@),
    {
        if let Some(t) = &self.tool {
            t.as_str()
        } else if let Some(s) = &self.sense {
            s.as_str()
        } else if let Some(st) = &self.stimulus {
            st.as_str()
        } else if let Some(r) = &self.reflex {
            r.as_str()
        } else if let Some(a) = &self.action {
            a.as_str()
        } else {
            proof {
                reveal_strlit("");
            }
            ""
        }
    }

    /// The parameter `key`, if given.
    pub fn get(&self, key: &str) -> (r: Option<&str>)
        ensures
            r matches Some(v) ==> self.params@.contains_key(key@) && self.params@[key@] == v@,
            r is None ==> !self.params@.contains_key(key@),
    {
        match self.params.get(key) {
            Some(s) => Some(s.as_str()),
            None => None,
        }
    }

    /// The parameter `key`, or `default` when it is not given.
    pub fn get_or<'a>(&'a self, key: &str, default: &'a str) -> (r: &'a str)
        ensures
            r@ == (if self.params@.contains_key(key@) {
                self.params@[key@]
            } else {
                default@
            }),
    {
        match self.get(key) {
            Some(v) => v,
            None => default,
        }
    }

    /// Whether the parameter `key` is `"true"` or `"1"`.
    pub fn get_bool(&self, key: &str) -> (r: bool)
        ensures
            r == (self.params@.contains_key(key@) && (self.params@[key@] == "true"@
                || self.params@[key@] == "1"@)),
    {
        match self.params.get(key) {
            Some(s) => {
                let t = String::from_str("true");
                let one = String::from_str("1");
                *s == t || *s == one
            },
            None => false,
        }
    }

    /// The parameter `key` read as an unsigned integer, if given and valid.
    pub fn get_u64(&self, key: &str) -> (r: Option<u64>)
        ensures
            r == (if self.params@.contains_key(key@) {
                parse_u64(self.params@[key@])
            } else {
                None
            }),
    {
        match self.params.get(key) {
            Some(s) => parse_u64_str(s.as_str()),
            None => None,
        }
    }
}

/// Whether a key was given: a selector key when its selector is set, any
/// other key when it is among the parameters.
pub open spec fn has_key(a: ArgsView, key: Seq<char>) -> bool {
    if key == "tool"@ {
        a.0 is Some
    } else if key == "sense"@ {
        a.1 is Some
    } else if key == "stimulus"@ {
        a.2 is Some
    } else if key == "reflex"@ {
        a.3 is Some
    } else if key == "action"@ {
        a.4 is Some
    } else {
        a.5.contains_key(key)
    }
}

/// The parameter `key`, or `default`.
pub open spec fn param_or(a: ArgsView, key: Seq<char>, default: Seq<char>) -> Seq<char> {
    if a.5.contains_key(key) {
        a.5[key]
    } else {
        default
    }
}

impl OrganArgs {
    /// Whether `key` was given on the command line.
    pub fn has(&self, key: &str) -> (r: bool)
        ensures
            r == has_key(self@, key@),
    {
        if crate::text::same_text(key, "tool") {
            self.tool.is_some()
        } else if crate::text::same_text(key, "sense") {
            self.sense.is_some()
        } else if crate::text::same_text(key, "stimulus") {
            self.stimulus.is_some()
        } else if crate::text::same_text(key, "reflex") {
            self.reflex.is_some()
        } else if crate::text::same_text(key, "action") {
            self.action.is_some()
        } else {
            self.get(key).is_some()
        }
    }
}


/// The requirements an organ declares on its host.
#[derive(Debug, Clone, PartialEq, Eq)]
pub struct OrganCompatibility {
    pub presence: Option<String>,
    pub api_version: Option<u32>,
    pub platforms: Option<Vec<String>>,
    pub features: Option<Vec<String>>,
}

impl Default for OrganCompatibility {
    /// No requirement at all.
    fn default() -> (r: OrganCompatibility)
        ensures
            r.presence is None,
            r.api_version is None,
            r.platforms is None,
            r.features is None,
    {
        OrganCompatibility { presence: None, api_version: None, platforms: None, features: None }
    }
}

/// A vegetative stimulus for the stem: a name, a description, how often it
/// runs, what it does and which agent it targets.
#[derive(Debug, Clone, PartialEq, Eq)]
pub struct OrganStimulusDef {
    pub name: String,
    pub description: Option<String>,
    pub cadence_secs: Option<u64>,
    pub action: Option<String>,
    pub target_agent: Option<String>,
}

/// An involuntary reflex for the cord: the event it fires on and its
/// action.
#[derive(Debug, Clone, PartialEq, Eq)]
pub struct OrganReflexDef {
    pub on: String,
    pub action: String,
}

/// Declaration of `semver::VersionReq`.
#[verifier::external_type_specification]
#[verifier::external_body]
pub struct ExVersionReq(semver::VersionReq);

/// Declaration of `semver::Version`.
#[verifier::external_type_specification]
#[verifier::external_body]
pub struct ExVersion(semver::Version);

/// What `semver::VersionReq::parse` reports for a text: `None` where it
/// accepts the text, else the error's message.
pub uninterp spec fn requirement_parse_error(text: Seq<char>) -> Option<Seq<char>>;

/// What `semver::Version::parse` reports for a text: `None` where it
/// accepts the text, else the error's message.
pub uninterp spec fn version_parse_error(text: Seq<char>) -> Option<Seq<char>>;

/// Whether the requirement parsed from `req` matches the version parsed
/// from `version` (`VersionReq::matches`).
pub uninterp spec fn version_matches(req: Seq<char>, version: Seq<char>) -> bool;

/// A parsed version requirement and the text it was parsed from.
pub struct SemverReq {
    req: semver::VersionReq,
    text: Ghost<Seq<char>>,
}

/// A parsed version and the text it was parsed from.
pub struct SemverVersion {
    ver: semver::Version,
    text: Ghost<Seq<char>>,
}

impl SemverReq {
    /// The text the requirement was parsed from.
    pub closed spec fn source(&self) -> Seq<char> {
        self.text@
    }
}

impl SemverVersion {
    /// The text the version was parsed from.
    pub closed spec fn source(&self) -> Seq<char> {
        self.text@
    }
}

/// Wrapper for `semver::VersionReq::parse`: the parsed requirement, or the
/// error's message; which texts it accepts is named
/// `requirement_parse_error`.
#[verifier::external_body]
pub(crate) fn parse_requirement(text: &str) -> (r: Result<SemverReq, String>)
    ensures
        match r {
            Ok(p) => requirement_parse_error(text@) is None && p.source() == text@,
            Err(e) => requirement_parse_error(text@) == Some(e@),
        },
{
    match semver::VersionReq::parse(text) {
        Ok(req) => Ok(SemverReq { req, text: Ghost(text@) }),
        Err(e) => Err(e.to_string()),
    }
}

/// Wrapper for `semver::Version::parse`: the parsed version, or the
/// error's message; which texts it accepts is named `version_parse_error`.
#[verifier::external_body]
pub(crate) fn parse_version(text: &str) -> (r: Result<SemverVersion, String>)
    ensures
        match r {
            Ok(p) => version_parse_error(text@) is None && p.source() == text@,
            Err(e) => version_parse_error(text@) == Some(e@),
        },
{
    match semver::Version::parse(text) {
        Ok(ver) => Ok(SemverVersion { ver, text: Ghost(text@) }),
        Err(e) => Err(e.to_string()),
    }
}

/// Wrapper for `semver::VersionReq::matches`; its answer is named
/// `version_matches` over the texts the two values were parsed from.
#[verifier::external_body]
pub(crate) fn requirement_matches(req: &SemverReq, version: &SemverVersion) -> (r: bool)
    ensures
        r == version_matches(req.source(), version.source()),
{
    req.req.matches(&version.ver)
}

/// Whether one of `platforms` names `os`, ignoring ASCII case.
pub open spec fn platform_listed(platforms: Seq<Seq<char>>, os: Seq<char>) -> bool {
    exists|i: int| 0 <= i < platforms.len() && ascii_lower(#[trigger] platforms[i]) == ascii_lower(os)
}

pub open spec fn strings_of(v: Vec<String>) -> Seq<Seq<char>> {
    v@.map_values(|s: String| s@)
}

/// The platform part of a compatibility check.
pub open spec fn platform_verdict(platforms: Option<Vec<String>>, os: Seq<char>) -> Result<(), Seq<char>> {
    match platforms {
        None => Ok(()),
        Some(ps) => if platform_listed(strings_of(ps), os) {
            Ok(())
        } else {
            Err("Platform '"@ + os + "' is not supported; required: "@ + debug_strings(strings_of(ps)))
        },
    }
}

/// The verdict of a compatibility check against a host version and
/// operating system.
pub open spec fn compat_verdict(c: OrganCompatibility, host: Seq<char>, os: Seq<char>) -> Result<(), Seq<char>> {
    match c.presence {
        Some(req) => match requirement_parse_error(req@) {
            Some(e) => Err("Invalid SemVer presence constraint '"@ + req@ + "': "@ + e),
            None => match version_parse_error(host) {
                Some(e) => Err("Invalid host presence version '"@ + host + "': "@ + e),
                None => if !version_matches(req@, host) {
                    Err("Presence version requirement '"@ + req@ + "' not satisfied by host '"@ + host + "'"@)
                } else {
                    platform_verdict(c.platforms, os)
                },
            },
        },
        None => platform_verdict(c.platforms, os),
    }
}

pub open spec fn unit_result_view(r: Result<(), String>) -> Result<(), Seq<char>> {
    match r {
        Ok(()) => Ok(()),
        Err(e) => Err(e@),
    }
}

impl OrganCompatibility {
    fn platform_check(&self, os: &str) -> (r: Result<(), String>)
        ensures
            unit_result_view(r) == platform_verdict(self.platforms, os@),
    {
        match &self.platforms {
            None => Ok(()),
            Some(ps) => {
                let want = to_ascii_lower(os);
                let mut i: usize = 0;
                while i < ps.len()
                    invariant
                        i <= ps@.len(),
                        self.platforms == Some(*ps),
                        want@ == ascii_lower(os@),
                        forall|k: int| 0 <= k < i ==> ascii_lower(#[trigger] strings_of(*ps)[k]) != ascii_lower(os@),
                    decreases ps@.len() - i,
                {
                    let got = to_ascii_lower(ps[i].as_str());
                    assert(strings_of(*ps)[i as int] == ps@[i as int]@);
                    if got == want {
                        assert(got@ == want@);
                        assert(ascii_lower(strings_of(*ps)[i as int]) == ascii_lower(os@));
                        assert(platform_listed(strings_of(*ps), os@));
                        assert(self.platforms == Some(*ps));
                        assert(platform_verdict(self.platforms, os@) == Ok::<(), Seq<char>>(()));
                        return Ok(());
                    }
                    i = i + 1;
                }
                let mut msg = String::new();
                push_text(&mut msg, "Platform '");
                push_text(&mut msg, os);
                push_text(&mut msg, "' is not supported; required: ");
                let listed = strings_debug(ps);
                push_text(&mut msg, listed.as_str());
                Err(msg)
            },
        }
    }

    /// Check this compatibility block against the host's Presence version
    /// and operating system.
    pub fn validate(&self, host_presence_version: &str, os: &str) -> (r: Result<(), String>)
        ensures
            unit_result_view(r) == compat_verdict(*self, host_presence_version@, os@),
    {
        match &self.presence {
            Some(req_str) => {
                let req = match parse_requirement(req_str.as_str()) {
                    Ok(q) => q,
                    Err(e) => {
                        let mut msg = String::new();
                        push_text(&mut msg, "Invalid SemVer presence constraint '");
                        push_text(&mut msg, req_str.as_str());
                        push_text(&mut msg, "': ");
                        push_text(&mut msg, e.as_str());
                        return Err(msg);
                    },
                };
                let ver = match parse_version(host_presence_version) {
                    Ok(v) => v,
                    Err(e) => {
                        let mut msg = String::new();
                        push_text(&mut msg, "Invalid host presence version '");
                        push_text(&mut msg, host_presence_version);
                        push_text(&mut msg, "': ");
                        push_text(&mut msg, e.as_str());
                        return Err(msg);
                    },
                };
                if !requirement_matches(&req, &ver) {
                    let mut msg = String::new();
                    push_text(&mut msg, "Presence version requirement '");
                    push_text(&mut msg, req_str.as_str());
                    push_text(&mut msg, "' not satisfied by host '");
                    push_text(&mut msg, host_presence_version);
                    push_text(&mut msg, "'");
                    return Err(msg);
                }
                self.platform_check(os)
            },
            None => self.platform_check(os),
        }
    }
}

/// What `serde_json` reads as the string field `key` of the JSON text
/// `raw`: `None` where the text is not JSON, has no such field, or the
/// field is not a string.
pub uninterp spec fn json_str_field(raw: Seq<char>, key: Seq<char>) -> Option<Seq<char>>;

/// Wrapper for `serde_json::from_str` into a `Value`, followed by
/// `Value::get` and `Value::as_str`: the string field `key` of the JSON
/// text `raw`; named `json_str_field`.
#[verifier::external_body]
pub(crate) fn json_string_field(raw: &str, key: &str) -> (r: Option<String>)
    ensures
        opt_view(r) == json_str_field(raw@, key@),
{
    match serde_json::from_str::<serde_json::Value>(raw) {
        Ok(v) => v.get(key).and_then(serde_json::Value::as_str).map(String::from),
        Err(_) => None,
    }
}

/// An argument by key: the parameter itself, else the string field of
/// the JSON text given as `args`.
pub open spec fn arg_value(a: ArgsView, key: Seq<char>) -> Option<Seq<char>> {
    if a.5.contains_key(key) {
        Some(a.5[key])
    } else if a.5.contains_key("args"@) {
        json_str_field(a.5["args"@], key)
    } else {
        None
    }
}

/// Read an argument from the command line or from the JSON `args` text.
pub fn extract_arg(args: &OrganArgs, key: &str) -> (r: Option<String>)
    ensures
        opt_view(r) == arg_value(args@, key@),
{
    match args.get(key) {
        Some(v) => Some(String::from_str(v)),
        None => match args.get("args") {
            Some(raw) => json_string_field(raw, key),
            None => None,
        },
    }
}


/// A parameter that is set can be read back, and setting it leaves the
/// selectors and the other parameters as they were.
pub proof fn lemma_param_reads_back(a: ArgsView, key: Seq<char>, val: Seq<char>, other: Seq<char>)
    requires
        key != "tool"@,
        key != "sense"@,
        key != "stimulus"@,
        key != "reflex"@,
        key != "action"@,
        other != key,
    ensures
        register(a, key, val).5.contains_key(key),
        register(a, key, val).5[key] == val,
        param_or(register(a, key, val), key, Seq::empty()) == val,
        has_key(register(a, key, val), key),
        register(a, key, val).0 == a.0 && register(a, key, val).1 == a.1 && register(a, key, val).2 == a.2
            && register(a, key, val).3 == a.3 && register(a, key, val).4 == a.4,
        register(a, key, val).5.contains_key(other) == a.5.contains_key(other),
        a.5.contains_key(other) ==> register(a, key, val).5[other] == a.5[other],
{
}

/// The key an item names: after `--`, up to its first `=`; none for an
/// item that does not start with `--`.
pub open spec fn item_key(item: Seq<char>) -> Option<Seq<char>> {
    if "--"@.is_prefix_of(item) {
        match split_once(item.skip(2), '=') {
            Some(kv) => Some(kv.0),
            None => Some(item.skip(2)),
        }
    } else {
        None
    }
}

/// Whether some item names `k`, either as `--k` or as `--k=...`.
pub open spec fn names_key(items: Seq<Seq<char>>, k: Seq<char>) -> bool {
    exists|i: int|
        0 <= i < items.len() && (#[trigger] items[i] == "--"@ + k || ("--"@ + k + "="@).is_prefix_of(items[i]))
}

/// The keys that select an operation.
pub open spec fn selector_key(k: Seq<char>) -> bool {
    k == "tool"@ || k == "sense"@ || k == "stimulus"@ || k == "reflex"@ || k == "action"@
}

proof fn lemma_item_key(item: Seq<char>, k: Seq<char>)
    ensures
        item_key(item) == Some(k) <==> (!k.contains('=') && (item == "--"@ + k || ("--"@ + k + "="@).is_prefix_of(
            item,
        ))),
{
    reveal_strlit("--");
    reveal_strlit("=");
    let key = item.skip(2);
    if "--"@.is_prefix_of(item) {
        assert(item =~= "--"@ + key);
        lemma_find_char(key, '=');
        match crate::text::find_char(key, '=') {
            Some(i) => {
                let k0 = key.take(i);
                assert(!k0.contains('=')) by {
                    if k0.contains('=') {
                        let q = choose|q: int| 0 <= q < k0.len() && k0[q] == '=';
                        assert(key[q] == '=');
                    }
                }
                assert(("--"@ + k0 + "="@).is_prefix_of(item)) by {
                    assert(item.subrange(0, k0.len() + 3int) =~= "--"@ + k0 + "="@);
                }
                if !k.contains('=') && item == "--"@ + k {
                    assert(key =~= k);
                    assert(k[i] == '=');
                }
                if !k.contains('=') && ("--"@ + k + "="@).is_prefix_of(item) && k != k0 {
                    if k.len() < i {
                        crate::text::lemma_prefix_char("--"@ + k + "="@, item, k.len() + 2int);
                        assert(key[k.len() as int] == '=');
                    } else if k.len() > i {
                        crate::text::lemma_prefix_char("--"@ + k + "="@, item, i + 2);
                        assert(k[i] == '=');
                    } else {
                        assert forall|q: int| 0 <= q < i implies k[q] == k0[q] by {
                            crate::text::lemma_prefix_char("--"@ + k + "="@, item, q + 2);
                        }
                        assert(k =~= k0);
                    }
                }
            },
            None => {
                assert(!key.contains('=')) by {
                    if key.contains('=') {
                        let q = choose|q: int| 0 <= q < key.len() && key[q] == '=';
                    }
                }
                if ("--"@ + k + "="@).is_prefix_of(item) {
                    crate::text::lemma_prefix_char("--"@ + k + "="@, item, k.len() + 2int);
                    assert(key[k.len() as int] == '=');
                }
                if item == "--"@ + k {
                    assert(key =~= k);
                }
            },
        }
    } else {
        if item == "--"@ + k {
            assert(item.subrange(0, 2) =~= "--"@);
        }
        if ("--"@ + k + "="@).is_prefix_of(item) {
            crate::text::lemma_prefix_char("--"@ + k + "="@, item, 0);
            crate::text::lemma_prefix_char("--"@ + k + "="@, item, 1);
            assert(item.subrange(0, 2) =~= "--"@);
        }
    }
}

/// Whether some item's key is `k`, counting from the front.
spec fn keyed(items: Seq<Seq<char>>, k: Seq<char>) -> bool
    decreases items.len(),
{
    if items.len() == 0 {
        false
    } else {
        item_key(items[0]) == Some(k) || keyed(items.drop_first(), k)
    }
}

proof fn lemma_keyed(items: Seq<Seq<char>>, k: Seq<char>)
    ensures
        keyed(items, k) <==> exists|i: int| 0 <= i < items.len() && #[trigger] item_key(items[i]) == Some(k),
    decreases items.len(),
{
    if items.len() > 0 {
        lemma_keyed(items.drop_first(), k);
        if keyed(items.drop_first(), k) {
            let i = choose|i: int| 0 <= i < items.drop_first().len() && #[trigger] item_key(items.drop_first()[i]) == Some(k);
            assert(items[i + 1] == items.drop_first()[i]);
        }
        if exists|i: int| 0 <= i < items.len() && #[trigger] item_key(items[i]) == Some(k) {
            let i = choose|i: int| 0 <= i < items.len() && #[trigger] item_key(items[i]) == Some(k);
            if i > 0 {
                assert(items.drop_first()[i - 1] == items[i]);
            }
        }
    }
}

proof fn lemma_parse_keys(a: ArgsView, items: Seq<Seq<char>>, k: Seq<char>)
    ensures
        parse_items(a, items).5.contains_key(k) <==> (a.5.contains_key(k) || (!selector_key(k) && keyed(items, k))),
        parse_items(a, items).0 is Some <==> (a.0 is Some || keyed(items, "tool"@)),
        parse_items(a, items).1 is Some <==> (a.1 is Some || keyed(items, "sense"@)),
        parse_items(a, items).2 is Some <==> (a.2 is Some || keyed(items, "stimulus"@)),
        parse_items(a, items).3 is Some <==> (a.3 is Some || keyed(items, "reflex"@)),
    decreases items.len(),
{
    reveal_strlit("--");
    reveal_strlit("tool");
    reveal_strlit("sense");
    reveal_strlit("stimulus");
    reveal_strlit("reflex");
    reveal_strlit("action");
    assert("tool"@.len() == 4 && "sense"@.len() == 5 && "stimulus"@.len() == 8);
    assert("reflex"@.len() == 6 && "action"@.len() == 6 && "reflex"@[0] != "action"@[0]);
    assert("sense"@ != "stimulus"@ && "sense"@ != "tool"@ && "sense"@ != "reflex"@ && "sense"@ != "action"@);
    assert("stimulus"@ != "tool"@ && "stimulus"@ != "reflex"@ && "stimulus"@ != "action"@);
    if items.len() > 0 {
        let item = items[0];
        if "--"@.is_prefix_of(item) {
            let key = item.skip(2);
            match split_once(key, '=') {
                Some(kv) => {
                    lemma_parse_keys(register(a, kv.0, kv.1), items.drop_first(), k);
                },
                None => {
                    if items.len() > 1 && !"--"@.is_prefix_of(items[1]) {
                        lemma_parse_keys(register(a, key, items[1]), items.skip(2), k);
                        assert(items.drop_first().drop_first() =~= items.skip(2));
                        assert(item_key(items.drop_first()[0]) is None);
                        assert(keyed(items.drop_first(), k) == keyed(items.skip(2), k));
                        assert(keyed(items.drop_first(), "tool"@) == keyed(items.skip(2), "tool"@));
                        assert(keyed(items.drop_first(), "sense"@) == keyed(items.skip(2), "sense"@));
                        assert(keyed(items.drop_first(), "stimulus"@) == keyed(items.skip(2), "stimulus"@));
                        assert(keyed(items.drop_first(), "reflex"@) == keyed(items.skip(2), "reflex"@));
                    } else {
                        lemma_parse_keys(register(a, key, "true"@), items.drop_first(), k);
                    }
                },
            }
        } else if a.4 is None {
            lemma_parse_keys((a.0, a.1, a.2, a.3, Some(item), a.5), items.drop_first(), k);
        } else {
            lemma_parse_keys(a, items.drop_first(), k);
        }
    }
}

/// What `from_args` reads comes from the arguments: a parameter is set
/// exactly for the non-selector keys, without `=`, that some argument names
/// as `--k` or `--k=...`, and each of tool, sense, stimulus and reflex is
/// set exactly when some argument names it so.
pub proof fn lemma_args_come_from_items(items: Seq<Seq<char>>, k: Seq<char>)
    ensures
        parse_items(no_args(), items).5.contains_key(k) <==> (!selector_key(k) && !k.contains('=') && names_key(
            items,
            k,
        )),
        parse_items(no_args(), items).0 is Some <==> names_key(items, "tool"@),
        parse_items(no_args(), items).1 is Some <==> names_key(items, "sense"@),
        parse_items(no_args(), items).2 is Some <==> names_key(items, "stimulus"@),
        parse_items(no_args(), items).3 is Some <==> names_key(items, "reflex"@),
{
    lemma_parse_keys(no_args(), items, k);
    lemma_keyed(items, k);
    lemma_keyed(items, "tool"@);
    lemma_keyed(items, "sense"@);
    lemma_keyed(items, "stimulus"@);
    lemma_keyed(items, "reflex"@);
    assert forall|i: int| 0 <= i < items.len() implies (item_key(items[i]) == Some(k) <==> (!k.contains('=') && (
    #[trigger] items[i] == "--"@ + k || ("--"@ + k + "="@).is_prefix_of(items[i])))) by {
        lemma_item_key(items[i], k);
    }
    let names = seq!["tool"@, "sense"@, "stimulus"@, "reflex"@];
    reveal_strlit("tool");
    reveal_strlit("sense");
    reveal_strlit("stimulus");
    reveal_strlit("reflex");
    assert(!"tool"@.contains('=')) by {
        if "tool"@.contains('=') {
            let q = choose|q: int| 0 <= q < "tool"@.len() && "tool"@[q] == '=';
        }
    }
    assert(!"sense"@.contains('=')) by {
        if "sense"@.contains('=') {
            let q = choose|q: int| 0 <= q < "sense"@.len() && "sense"@[q] == '=';
        }
    }
    assert(!"stimulus"@.contains('=')) by {
        if "stimulus"@.contains('=') {
            let q = choose|q: int| 0 <= q < "stimulus"@.len() && "stimulus"@[q] == '=';
        }
    }
    assert(!"reflex"@.contains('=')) by {
        if "reflex"@.contains('=') {
            let q = choose|q: int| 0 <= q < "reflex"@.len() && "reflex"@[q] == '=';
        }
    }
    assert forall|i: int| 0 <= i < items.len() implies (item_key(items[i]) == Some("tool"@) <==> (
    #[trigger] items[i] == "--"@ + "tool"@ || ("--"@ + "tool"@ + "="@).is_prefix_of(items[i]))) by {
        lemma_item_key(items[i], "tool"@);
    }
    assert forall|i: int| 0 <= i < items.len() implies (item_key(items[i]) == Some("sense"@) <==> (
    #[trigger] items[i] == "--"@ + "sense"@ || ("--"@ + "sense"@ + "="@).is_prefix_of(items[i]))) by {
        lemma_item_key(items[i], "sense"@);
    }
    assert forall|i: int| 0 <= i < items.len() implies (item_key(items[i]) == Some("stimulus"@) <==> (
    #[trigger] items[i] == "--"@ + "stimulus"@ || ("--"@ + "stimulus"@ + "="@).is_prefix_of(items[i]))) by {
        lemma_item_key(items[i], "stimulus"@);
    }
    assert forall|i: int| 0 <= i < items.len() implies (item_key(items[i]) == Some("reflex"@) <==> (
    #[trigger] items[i] == "--"@ + "reflex"@ || ("--"@ + "reflex"@ + "="@).is_prefix_of(items[i]))) by {
        lemma_item_key(items[i], "reflex"@);
    }
}

/// The operation is the first selector given: a tool wins over any other.
pub proof fn lemma_tool_selects_op(a: ArgsView, t: Seq<char>)
    ensures
        op_of(register(a, "tool"@, t)) == t,
{
}

} // verus!
