use vstd::prelude::*;

use kdl::{KdlDocument, KdlEntry, KdlNode};

use crate::glob::{glob_match, glob_matches};
use crate::kdl_doc::{
    doc_nodes, entry_ident, entry_value, first_named, kdl_failure, last_property, node_children,
    node_entries, node_name, parse_document, parsed_kdl, property, value_integer, value_text,
};
use crate::text::same_text;
use crate::upto::UptoUnit;

verus! {

/// One dispatch entry: the filename patterns it answers to, in priority
/// order, the command to run, its argument template, and an optional default
/// read limit counted in lines.
#[derive(Debug, Clone)]
pub struct Rule {
    pub patterns: Vec<String>,
    pub command: String,
    pub args: Vec<String>,
    pub default_upto: Option<usize>,
}

/// A rule with its texts as character sequences.
pub ghost struct RuleView {
    pub patterns: Seq<Seq<char>>,
    pub command: Seq<char>,
    pub args: Seq<Seq<char>>,
    pub default_upto: Option<usize>,
}

pub open spec fn texts(v: Seq<String>) -> Seq<Seq<char>> {
    v.map_values(|s: String| s@)
}

impl View for Rule {
    type V = RuleView;

    open spec fn view(&self) -> RuleView {
        RuleView {
            patterns: texts(self.patterns@),
            command: self.command@,
            args: texts(self.args@),
            default_upto: self.default_upto,
        }
    }
}

/// Why a configuration could not be loaded.
#[derive(Debug, Clone, PartialEq, Eq)]
pub enum ConfigError {
    /// No configuration file was found up to the filesystem root.
    NotFound,
    /// The configuration file could not be read; holds the reason.
    Unreadable(String),
    /// The document is not well-formed; holds what the parser's error displays.
    Syntax(String),
    /// A `rule` names no pattern.
    MissingPatterns,
    /// A `rule` has no `command` with a non-empty string argument.
    MissingCommand,
}

/// What a [`ConfigError`] says to the user.
pub open spec fn config_message(e: ConfigError) -> Seq<char> {
    match e {
        ConfigError::NotFound => "no .lat.kdl config found"@,
        ConfigError::Unreadable(t) => "failed to read config: "@ + t@,
        ConfigError::Syntax(t) => "failed to parse config: "@ + t@,
        ConfigError::MissingPatterns => "rule must have at least one pattern"@,
        ConfigError::MissingCommand => "rule must have a command"@,
    }
}

impl ConfigError {
    /// A short description of the error for the user.
    pub fn message(&self) -> (r: String)
        ensures
            r@ == config_message(*self),
    {
        match self {
            ConfigError::NotFound => String::from_str("no .lat.kdl config found"),
            ConfigError::Unreadable(e) => {
                let mut m = String::from_str("failed to read config: ");
                m.append(e.as_str());
                m
            },
            ConfigError::Syntax(e) => {
                let mut m = String::from_str("failed to parse config: ");
                m.append(e.as_str());
                m
            },
            ConfigError::MissingPatterns => String::from_str("rule must have at least one pattern"),
            ConfigError::MissingCommand => String::from_str("rule must have a command"),
        }
    }
}

/// The ordered rule set of one configuration document.
#[derive(Debug)]
pub struct Config {
    pub rules: Vec<Rule>,
}

/// The texts of the string arguments (entries without a name) among `entries`.
pub open spec fn free_strings(entries: Seq<KdlEntry>) -> Seq<Seq<char>>
    decreases entries.len(),
{
    if entries.len() == 0 {
        Seq::empty()
    } else {
        let rest = free_strings(entries.drop_last());
        let e = entries.last();
        if entry_ident(e) is None && value_text(entry_value(e)) is Some {
            rest.push(value_text(entry_value(e))->Some_0)
        } else {
            rest
        }
    }
}

/// The command of a rule body: the first entry of its first `command` node,
/// if that entry is a non-empty string.
pub open spec fn command_of(body: KdlDocument) -> Option<Seq<char>> {
    match first_named(doc_nodes(body), "command"@) {
        Some(c) => if node_entries(c).len() > 0 {
            match value_text(entry_value(node_entries(c)[0])) {
                Some(t) => if t.len() > 0 {
                    Some(t)
                } else {
                    None
                },
                None => None,
            }
        } else {
            None
        },
        None => None,
    }
}

/// The argument template of a rule body: the string arguments of its first
/// `args` node, or nothing.
pub open spec fn args_of(body: KdlDocument) -> Seq<Seq<char>> {
    match first_named(doc_nodes(body), "args"@) {
        Some(a) => free_strings(node_entries(a)),
        None => Seq::empty(),
    }
}

/// The default read limit of a rule body: the integer property `upto` of its
/// first `defaults` node, if there is one and it is a count that fits a
/// `usize`.
pub open spec fn default_of(body: KdlDocument) -> Option<usize> {
    match first_named(doc_nodes(body), "defaults"@) {
        Some(d) => match last_property(node_entries(d), "upto"@) {
            Some(v) => match value_integer(v) {
                Some(i) => if 0 <= i <= usize::MAX {
                    Some(i as usize)
                } else {
                    None
                },
                None => None,
            },
            None => None,
        },
        None => None,
    }
}

/// The rule that a `rule` node describes.
pub open spec fn rule_of(n: KdlNode) -> Result<RuleView, ConfigError> {
    let patterns = free_strings(node_entries(n));
    if patterns.len() == 0 {
        Err(ConfigError::MissingPatterns)
    } else {
        match node_children(n) {
            None => Err(ConfigError::MissingCommand),
            Some(body) => match command_of(body) {
                None => Err(ConfigError::MissingCommand),
                Some(command) => Ok(
                    RuleView {
                        patterns,
                        command,
                        args: args_of(body),
                        default_upto: default_of(body),
                    },
                ),
            },
        }
    }
}

/// The rules that the `rule` nodes among `nodes` describe, in order, or the
/// error of the first one that is malformed.
pub open spec fn rules_of(nodes: Seq<KdlNode>) -> Result<Seq<RuleView>, ConfigError>
    decreases nodes.len(),
{
    if nodes.len() == 0 {
        Ok(Seq::empty())
    } else {
        match rules_of(nodes.drop_last()) {
            Err(e) => Err(e),
            Ok(rs) => if node_name(nodes.last()) == "rule"@ {
                match rule_of(nodes.last()) {
                    Err(e) => Err(e),
                    Ok(r) => Ok(rs.push(r)),
                }
            } else {
                Ok(rs)
            },
        }
    }
}

pub open spec fn rule_views(rules: Seq<Rule>) -> Seq<RuleView> {
    rules.map_values(|r: Rule| r@)
}

pub open spec fn config_result_view(r: Result<Config, ConfigError>) -> Result<
    Seq<RuleView>,
    ConfigError,
> {
    match r {
        Ok(c) => Ok(rule_views(c.rules@)),
        Err(e) => Err(e),
    }
}

/// Whether `rule` answers to `filename` through one of its patterns.
pub open spec fn rule_accepts(rule: RuleView, filename: Seq<char>) -> bool {
    exists|i: int| 0 <= i < rule.patterns.len() && glob_matches(rule.patterns[i], filename)
}

/// The texts of the string arguments among `entries`.
fn string_arguments(entries: &[KdlEntry]) -> (r: Vec<String>)
    ensures
        texts(r@) == free_strings(entries@),
{
    let mut out: Vec<String> = Vec::new();
    let mut i: usize = 0;
    while i < entries.len()
        invariant
            i <= entries.len(),
            texts(out@) == free_strings(entries@.subrange(0, i as int)),
        decreases entries.len() - i,
    {
        let e = &entries[i];
        let ghost before = out@;
        assert(entries@.subrange(0, i + 1).drop_last() =~= entries@.subrange(0, i as int));
        if e.name().is_none() {
            match e.value().as_string() {
                Some(s) => {
                    out.push(s.to_owned());
                    assert(texts(out@) =~= texts(before).push(s@));
                },
                None => {},
            }
        }
        i = i + 1;
    }
    assert(entries@.subrange(0, entries.len() as int) =~= entries@);
    out
}

impl Rule {
    /// A rule from its parts.
    pub fn new(patterns: Vec<String>, command: String, args: Vec<String>, default_upto: Option<
        usize,
    >) -> (r: Rule)
        ensures
            r.patterns == patterns,
            r.command == command,
            r.args == args,
            r.default_upto == default_upto,
    {
        Rule { patterns, command, args, default_upto }
    }

    /// The read limit to use: the one given, else this rule's default.
    pub fn upto(&self, cli_upto: Option<usize>) -> (r: Option<usize>)
        ensures
            r == (if cli_upto is Some {
                cli_upto
            } else {
                self@.default_upto
            }),
    {
        match cli_upto {
            Some(n) => Some(n),
            None => self.default_upto,
        }
    }

    /// The read limit to use: the one given, else this rule's default counted
    /// in lines, else none.
    pub fn effective_limit(&self, cli_upto: Option<UptoUnit>) -> (r: Option<UptoUnit>)
        ensures
            r == (match cli_upto {
                Some(u) => Some(u),
                None => match self@.default_upto {
                    Some(n) => Some(UptoUnit::Lines(n)),
                    None => None,
                },
            }),
    {
        match cli_upto {
            Some(u) => Some(u),
            None => match self.default_upto {
                Some(n) => Some(UptoUnit::Lines(n)),
                None => None,
            },
        }
    }

    /// The rule that a `rule` node describes.
    fn from_node(node: &KdlNode) -> (r: Result<Rule, ConfigError>)
        ensures
            match r {
                Ok(rule) => rule_of(*node) == Ok::<RuleView, ConfigError>(rule@),
                Err(e) => rule_of(*node) == Err::<RuleView, ConfigError>(e),
            },
    {
        let patterns = string_arguments(node.entries());
        if patterns.len() == 0 {
            return Err(ConfigError::MissingPatterns);
        }
        let body = match node.children() {
            Some(b) => b,
            None => {
                return Err(ConfigError::MissingCommand);
            },
        };
        let command = match body.get("command") {
            Some(c) => {
                let entries = c.entries();
                if entries.len() == 0 {
                    return Err(ConfigError::MissingCommand);
                }
                match entries[0].value().as_string() {
                    Some(s) => {
                        if s.is_empty() {
                            return Err(ConfigError::MissingCommand);
                        }
                        s.to_owned()
                    },
                    None => {
                        return Err(ConfigError::MissingCommand);
                    },
                }
            },
            None => {
                return Err(ConfigError::MissingCommand);
            },
        };
        let args = match body.get("args") {
            Some(a) => string_arguments(a.entries()),
            None => Vec::new(),
        };
        let default_upto = match body.get("defaults") {
            Some(d) => match property(d, "upto") {
                Some(v) => match v.as_integer() {
                    Some(i) => if 0 <= i && i <= usize::MAX as i128 {
                        Some(i as usize)
                    } else {
                        None
                    },
                    None => None,
                },
                None => None,
            },
            None => None,
        };
        let rule = Rule { patterns, command, args, default_upto };
        assert(texts(rule.args@) == args_of(*body));
        Ok(rule)
    }
}

impl Config {
    /// The rules of a parsed document, in document order.
    pub fn from_kdl(doc: &KdlDocument) -> (r: Result<Config, ConfigError>)
        ensures
            config_result_view(r) == rules_of(doc_nodes(*doc)),
    {
        let nodes = doc.nodes();
        let mut rules: Vec<Rule> = Vec::new();
        let mut i: usize = 0;
        assert(nodes@.subrange(0, 0) =~= Seq::<KdlNode>::empty());
        assert(rule_views(rules@) =~= Seq::<RuleView>::empty());
        while i < nodes.len()
            invariant
                i <= nodes.len(),
                nodes@ == doc_nodes(*doc),
                rules_of(nodes@.subrange(0, i as int)) == Ok::<Seq<RuleView>, ConfigError>(
                    rule_views(rules@),
                ),
            decreases nodes.len() - i,
        {
            let node = &nodes[i];
            let ghost before = rules@;
            assert(nodes@.subrange(0, i + 1).drop_last() =~= nodes@.subrange(0, i as int));
            assert(nodes@.subrange(0, i + 1).last() == *node);
            if same_text(node.name().value(), "rule") {
                match Rule::from_node(node) {
                    Ok(rule) => {
                        rules.push(rule);
                        assert(rule_views(rules@) =~= rule_views(before).push(rule@));
                    },
                    Err(e) => {
                        proof {
                            lemma_error_persists(nodes@, i as int + 1);
                        }
                        assert(nodes@.subrange(0, nodes@.len() as int) =~= nodes@);
                        return Err(e);
                    },
                }
            }
            i = i + 1;
        }
        assert(nodes@.subrange(0, nodes.len() as int) =~= nodes@);
        Ok(Config { rules })
    }

    /// The rules of the configuration document `text`.
    pub fn parse(text: &str) -> (r: Result<Config, ConfigError>)
        ensures
            match parsed_kdl(text@) {
                None => r matches Err(ConfigError::Syntax(t)) && t@ == kdl_failure(),
                Some(doc) => config_result_view(r) == rules_of(doc_nodes(doc)),
            },
    {
        match parse_document(text) {
            Ok(doc) => Config::from_kdl(&doc),
            Err(e) => Err(ConfigError::Syntax(e)),
        }
    }

    /// The first rule, in declaration order, with a pattern that accepts
    /// `filename`.
    pub fn find_rule(&self, filename: &str) -> (r: Option<&Rule>)
        ensures
            match r {
                Some(rule) => exists|k: int|
                    0 <= k < self.rules@.len() && self.rules@[k] == *rule && rule_accepts(
                        self.rules@[k]@,
                        filename@,
                    ) && forall|j: int| 0 <= j < k ==> !rule_accepts(self.rules@[j]@, filename@),
                None => forall|k: int|
                    0 <= k < self.rules@.len() ==> !rule_accepts(#[trigger] self.rules@[k]@, filename@),
            },
    {
        let mut k: usize = 0;
        while k < self.rules.len()
            invariant
                k <= self.rules.len(),
                forall|j: int| 0 <= j < k ==> !rule_accepts(#[trigger] self.rules@[j]@, filename@),
            decreases self.rules.len() - k,
        {
            let rule = &self.rules[k];
            let mut p: usize = 0;
            while p < rule.patterns.len()
                invariant
                    p <= rule.patterns.len(),
                    k < self.rules.len(),
                    *rule == self.rules@[k as int],
                    forall|j: int| 0 <= j < k ==> !rule_accepts(#[trigger] self.rules@[j]@, filename@),
                    forall|q: int|
                        0 <= q < p ==> !glob_matches(#[trigger] rule@.patterns[q], filename@),
                decreases rule.patterns.len() - p,
            {
                if glob_match(rule.patterns[p].as_str(), filename) {
                    assert(rule@.patterns[p as int] == rule.patterns@[p as int]@);
                    assert(rule_accepts(self.rules@[k as int]@, filename@));
                    return Some(rule);
                }
                assert(rule@.patterns[p as int] == rule.patterns@[p as int]@);
                p = p + 1;
            }
            k = k + 1;
        }
        None
    }
}

proof fn lemma_error_persists(nodes: Seq<KdlNode>, i: int)
    requires
        0 < i <= nodes.len(),
        rules_of(nodes.subrange(0, i)) is Err,
    ensures
        rules_of(nodes) == rules_of(nodes.subrange(0, i)),
    decreases nodes.len() - i,
{
    if i < nodes.len() {
        assert(nodes.subrange(0, i + 1).drop_last() =~= nodes.subrange(0, i));
        lemma_error_persists(nodes, i + 1);
    } else {
        assert(nodes.subrange(0, i) =~= nodes);
    }
}

proof fn lemma_well_formed_rules_load(nodes: Seq<KdlNode>)
    requires
        forall|j: int|
            0 <= j < nodes.len() && node_name(#[trigger] nodes[j]) == "rule"@ ==> rule_of(
                nodes[j],
            ) is Ok,
    ensures
        rules_of(nodes) is Ok,
    decreases nodes.len(),
{
    if nodes.len() > 0 {
        let p = nodes.drop_last();
        assert forall|j: int|
            0 <= j < p.len() && node_name(#[trigger] p[j]) == "rule"@ implies rule_of(p[j]) is Ok by {
            assert(p[j] == nodes[j]);
        }
        lemma_well_formed_rules_load(p);
        assert(nodes.last() == nodes[nodes.len() - 1]);
    }
}

/// A malformed `rule` node fails the whole load: a document in which some
/// `rule` node lacks a pattern or a non-empty command gives no rules at all, and when
/// every `rule` node before it is sound the error is that node's own
/// (`MissingPatterns` or `MissingCommand`).
pub proof fn lemma_malformed_rule_fails_load(nodes: Seq<KdlNode>, k: int)
    requires
        0 <= k < nodes.len(),
        node_name(nodes[k]) == "rule"@,
        rule_of(nodes[k]) is Err,
    ensures
        rules_of(nodes) is Err,
        (forall|j: int|
            0 <= j < k && node_name(#[trigger] nodes[j]) == "rule"@ ==> rule_of(nodes[j]) is Ok)
            ==> rules_of(nodes) == Err::<Seq<RuleView>, ConfigError>(rule_of(nodes[k])->Err_0),
    decreases nodes.len(),
{
    let p = nodes.drop_last();
    let earlier_sound = forall|j: int|
        0 <= j < k && node_name(#[trigger] nodes[j]) == "rule"@ ==> rule_of(nodes[j]) is Ok;
    if k == nodes.len() - 1 {
        assert(nodes.last() == nodes[k]);
        if earlier_sound {
            assert forall|j: int|
                0 <= j < p.len() && node_name(#[trigger] p[j]) == "rule"@ implies rule_of(
                p[j],
            ) is Ok by {
                assert(p[j] == nodes[j]);
            }
            lemma_well_formed_rules_load(p);
        }
    } else {
        assert(p[k] == nodes[k]);
        lemma_malformed_rule_fails_load(p, k);
        if earlier_sound {
            assert forall|j: int|
                0 <= j < k && node_name(#[trigger] p[j]) == "rule"@ implies rule_of(p[j]) is Ok by {
                assert(p[j] == nodes[j]);
            }
        }
    }
}

/// A rule is sound when it has at least one pattern and a non-empty command.
pub open spec fn rule_well_formed(r: RuleView) -> bool {
    r.patterns.len() > 0 && r.command.len() > 0
}

/// Every rule of a configuration that loads has at least one pattern and a
/// non-empty command.
pub proof fn lemma_loaded_rules_have_patterns(nodes: Seq<KdlNode>)
    requires
        rules_of(nodes) is Ok,
    ensures
        forall|i: int|
            0 <= i < rules_of(nodes)->Ok_0.len() ==> rule_well_formed(
                #[trigger] rules_of(nodes)->Ok_0[i],
            ),
    decreases nodes.len(),
{
    if nodes.len() > 0 {
        lemma_loaded_rules_have_patterns(nodes.drop_last());
    }
}

} // verus!
