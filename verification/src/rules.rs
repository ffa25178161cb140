//! Ordered wildcard routing rules deciding the destination channel of alerts.

use vstd::prelude::*;
use crate::glob::Pattern;
use crate::glob::glob_match;
use crate::glob::find_from;

verus! {

/// Mathematical form of one routing rule: three anchored wildcard patterns
/// and an optional destination channel (`None` disables notification).
pub ghost struct RuleView {
    pub namespace: Seq<char>,
    pub pod: Seq<char>,
    pub container: Seq<char>,
    pub channel: Option<Seq<char>>,
}

/// Position of the first occurrence of `c` in `s`, if any.
pub open spec fn find_char(s: Seq<char>, c: char) -> Option<int>
    decreases s.len(),
{
    if s.len() == 0 {
        None
    } else if s[0] == c {
        Some(0int)
    } else {
        match find_char(s.skip(1), c) {
            Some(i) => Some(i + 1),
            None => None,
        }
    }
}

/// `find_char` returns the position of the first occurrence.
pub proof fn lemma_find_char_present(s: Seq<char>, c: char, i: int)
    requires
        0 <= i < s.len(),
        s[i] == c,
        forall|j: int| 0 <= j < i ==> s[j] != c,
    ensures
        find_char(s, c) == Some(i),
    decreases s.len(),
{
    if s[0] == c {
        assert(i == 0);
    } else {
        assert(forall|j: int| 0 <= j < i - 1 ==> s.skip(1)[j] == s[j + 1]);
        lemma_find_char_present(s.skip(1), c, i - 1);
    }
}

/// `find_char` returns nothing when `c` does not occur in `s`.
pub proof fn lemma_find_char_absent(s: Seq<char>, c: char)
    requires
        forall|j: int| 0 <= j < s.len() ==> s[j] != c,
    ensures
        find_char(s, c) is None,
    decreases s.len(),
{
    if s.len() > 0 {
        lemma_find_char_absent(s.skip(1), c);
    }
}

/// The parts before and after the first occurrence of `c` in `s`, if any.
pub open spec fn spec_split_once(s: Seq<char>, c: char) -> Option<(Seq<char>, Seq<char>)> {
    match find_char(s, c) {
        Some(i) => Some((s.take(i), s.skip(i + 1))),
        None => None,
    }
}

/// Grammar of one rule: `namespace '/' pod '/' container '=' channel`, split
/// at the first occurrence of each delimiter; an empty channel means
/// "match but do not notify".
pub open spec fn spec_parse_rule(s: Seq<char>) -> Option<RuleView> {
    match spec_split_once(s, '/') {
        None => None,
        Some((namespace, rest)) => match spec_split_once(rest, '/') {
            None => None,
            Some((pod, rest2)) => match spec_split_once(rest2, '=') {
                None => None,
                Some((container, channel)) => Some(
                    RuleView {
                        namespace,
                        pod,
                        container,
                        channel: if channel.len() == 0 {
                            None
                        } else {
                            Some(channel)
                        },
                    },
                ),
            },
        },
    }
}

/// Grammar of a configuration: one rule per comma-separated segment; the
/// whole configuration is rejected if any segment is malformed.
pub open spec fn spec_parse_config(s: Seq<char>) -> Option<Seq<RuleView>>
    decreases s.len(),
{
    match find_char(s, ',') {
        None => match spec_parse_rule(s) {
            None => None,
            Some(r) => Some(seq![r]),
        },
        Some(i) => if 0 <= i < s.len() {
            match spec_parse_rule(s.take(i)) {
                None => None,
                Some(r) => match spec_parse_config(s.skip(i + 1)) {
                    None => None,
                    Some(rest) => Some(seq![r] + rest),
                },
            }
        } else {
            // `find_char` never yields an out-of-range position; this branch
            // only discharges the termination check.
            None
        },
    }
}

/// A rule matches an identity triple when all three patterns match.
pub open spec fn rule_matches(
    r: RuleView,
    namespace: Seq<char>,
    pod: Seq<char>,
    container: Seq<char>,
) -> bool {
    glob_match(r.namespace, namespace) && glob_match(r.pod, pod) && glob_match(
        r.container,
        container,
    )
}

/// Outcome of routing an identity triple through an ordered rule list: the
/// first matching rule decides (its channel, possibly `None` for "match but
/// suppress"); no match means no notification.
pub open spec fn spec_resolve(
    rules: Seq<RuleView>,
    namespace: Seq<char>,
    pod: Seq<char>,
    container: Seq<char>,
) -> Option<Seq<char>>
    decreases rules.len(),
{
    if rules.len() == 0 {
        None
    } else if rule_matches(rules[0], namespace, pod, container) {
        rules[0].channel
    } else {
        spec_resolve(rules.skip(1), namespace, pod, container)
    }
}

/// A malformed routing configuration; holds the offending rule text.
#[derive(Debug)]
pub struct ConfigError {
    pub rule: String,
}

/// Rule to control the notification destination, written
/// `namespace/pod/container=channel`. The namespace, pod and container
/// patterns may include the `*` wildcard; an empty channel disables
/// notification for identities the rule matches.
#[derive(Debug, PartialEq, Eq)]
pub struct NotificationRule {
    pub namespace: Pattern,
    pub pod: Pattern,
    pub container: Pattern,
    pub channel: Option<String>,
}

impl View for NotificationRule {
    type V = RuleView;

    open spec fn view(&self) -> RuleView {
        RuleView {
            namespace: self.namespace@,
            pod: self.pod@,
            container: self.container@,
            channel: match self.channel {
                Some(c) => Some(c@),
                None => None,
            },
        }
    }
}

impl NotificationRule {
    /// Parses one rule; returns the offending text when the input does not
    /// have the `namespace/pod/container=channel` shape.
    pub fn from_str(s: &str) -> (result: Result<NotificationRule, ConfigError>)
        ensures
            match result {
                Ok(rule) => spec_parse_rule(s@) == Some(rule@),
                Err(e) => spec_parse_rule(s@) is None && e.rule@ == s@,
            },
    {
        let n = s.unicode_len();
        let slash1 = match find_from(s, 0, '/') {
            Some(i) => i,
            None => {
                proof {
                    lemma_find_char_absent(s@, '/');
                }
                return Err(ConfigError { rule: s.to_owned() });
            },
        };
        proof {
            lemma_find_char_present(s@, '/', slash1 as int);
        }
        let ghost rest = s@.skip(slash1 + 1);
        let slash2 = match find_from(s, slash1 + 1, '/') {
            Some(i) => i,
            None => {
                proof {
                    lemma_find_char_absent(rest, '/');
                }
                return Err(ConfigError { rule: s.to_owned() });
            },
        };
        proof {
            lemma_find_char_present(rest, '/', slash2 - slash1 - 1);
        }
        let ghost rest2 = rest.skip(slash2 - slash1);
        proof {
            assert(rest2 =~= s@.skip(slash2 + 1));
        }
        let eq = match find_from(s, slash2 + 1, '=') {
            Some(i) => i,
            None => {
                proof {
                    lemma_find_char_absent(rest2, '=');
                }
                return Err(ConfigError { rule: s.to_owned() });
            },
        };
        proof {
            lemma_find_char_present(rest2, '=', eq - slash2 - 1);
        }
        let namespace = Pattern::new(s.substring_char(0, slash1));
        let pod = Pattern::new(s.substring_char(slash1 + 1, slash2));
        let container = Pattern::new(s.substring_char(slash2 + 1, eq));
        let channel_text = s.substring_char(eq + 1, n);
        let channel = if channel_text.unicode_len() == 0 {
            None
        } else {
            Some(channel_text.to_owned())
        };
        let rule = NotificationRule { namespace, pod, container, channel };
        proof {
            assert(s@.subrange(0, slash1 as int) =~= s@.take(slash1 as int));
            assert(s@.subrange(slash1 + 1, slash2 as int) =~= rest.take(slash2 - slash1 - 1));
            assert(s@.subrange(slash2 + 1, eq as int) =~= rest2.take(eq - slash2 - 1));
            assert(s@.subrange(eq + 1, s@.len() as int) =~= rest2.skip(eq - slash2));
        }
        Ok(rule)
    }

    /// Applies this rule to an identity triple: `None` when the rule does not
    /// match; otherwise the rule's channel decision.
    pub fn find_channel(&self, namespace: &str, pod: &str, container: &str) -> (result: Option<
        Option<String>,
    >)
        ensures
            (result is Some) == rule_matches(self@, namespace@, pod@, container@),
            match result {
                Some(decision) => match decision {
                    Some(ch) => self@.channel == Some(ch@),
                    None => self@.channel is None,
                },
                None => true,
            },
    {
        if self.namespace.matches(namespace) && self.pod.matches(pod) && self.container.matches(
            container,
        ) {
            match &self.channel {
                Some(c) => Some(Some(c.clone())),
                None => Some(None),
            }
        } else {
            None
        }
    }
}

/// Ordered set of `NotificationRule`s, written as a comma-separated list;
/// earlier rules have higher priority.
#[derive(Debug, PartialEq, Eq)]
pub struct NotificationConfig {
    pub rules: Vec<NotificationRule>,
}

impl View for NotificationConfig {
    type V = Seq<RuleView>;

    open spec fn view(&self) -> Seq<RuleView> {
        self.rules@.map_values(|r: NotificationRule| r@)
    }
}

impl NotificationConfig {
    /// Parses a whole routing configuration; fails on the first malformed
    /// rule, carrying its text.
    pub fn from_str(s: &str) -> (result: Result<NotificationConfig, ConfigError>)
        ensures
            match result {
                Ok(config) => spec_parse_config(s@) == Some(config@),
                Err(_) => spec_parse_config(s@) is None,
            },
    {
        match Self::from_str_at(s, 0) {
            Ok(rules) => {
                let config = NotificationConfig { rules };
                proof {
                    assert(s@.skip(0) =~= s@);
                }
                Ok(config)
            },
            Err(e) => {
                proof {
                    assert(s@.skip(0) =~= s@);
                }
                Err(e)
            },
        }
    }

    /// Parses the comma-separated rules of `s` starting at character `from`.
    fn from_str_at(s: &str, from: usize) -> (result: Result<Vec<NotificationRule>, ConfigError>)
        requires
            from <= s@.len(),
        ensures
            match result {
                Ok(rules) => spec_parse_config(s@.skip(from as int)) == Some(
                    rules@.map_values(|r: NotificationRule| r@),
                ),
                Err(_) => spec_parse_config(s@.skip(from as int)) is None,
            },
        decreases s@.len() - from,
    {
        let n = s.unicode_len();
        let ghost tail = s@.skip(from as int);
        match find_from(s, from, ',') {
            None => {
                proof {
                    lemma_find_char_absent(tail, ',');
                }
                let rule = match NotificationRule::from_str(s.substring_char(from, n)) {
                    Ok(rule) => rule,
                    Err(e) => {
                        proof {
                            assert(s@.subrange(from as int, n as int) =~= tail);
                        }
                        return Err(e);
                    },
                };
                proof {
                    assert(s@.subrange(from as int, n as int) =~= tail);
                }
                let mut rules: Vec<NotificationRule> = Vec::new();
                rules.push(rule);
                proof {
                    assert(rules@.map_values(|r: NotificationRule| r@) =~= seq![rule@]);
                }
                Ok(rules)
            },
            Some(comma) => {
                proof {
                    lemma_find_char_present(tail, ',', comma - from);
                }
                let rule = match NotificationRule::from_str(s.substring_char(from, comma)) {
                    Ok(rule) => rule,
                    Err(e) => {
                        proof {
                            assert(s@.subrange(from as int, comma as int) =~= tail.take(
                                comma - from,
                            ));
                        }
                        return Err(e);
                    },
                };
                proof {
                    assert(s@.subrange(from as int, comma as int) =~= tail.take(comma - from));
                }
                let mut rules = match Self::from_str_at(s, comma + 1) {
                    Ok(rules) => rules,
                    Err(e) => {
                        proof {
                            assert(s@.skip(comma + 1) =~= tail.skip(comma - from + 1));
                        }
                        return Err(e);
                    },
                };
                proof {
                    assert(s@.skip(comma + 1) =~= tail.skip(comma - from + 1));
                }
                rules.insert(0, rule);
                proof {
                    assert(rules@.map_values(|r: NotificationRule| r@) =~= seq![rule@]
                        + rules@.skip(1).map_values(|r: NotificationRule| r@));
                }
                Ok(rules)
            },
        }
    }

    /// Routes an identity triple through the rules in order; the first
    /// matching rule decides the channel, a matching rule with no channel or
    /// no matching rule at all decides "no notification".
    pub fn find_channel(&self, namespace: &str, pod: &str, container: &str) -> (result: Option<
        String,
    >)
        ensures
            match result {
                Some(ch) => spec_resolve(self@, namespace@, pod@, container@) == Some(ch@),
                None => spec_resolve(self@, namespace@, pod@, container@) is None,
            },
    {
        let ghost all = self@;
        proof {
            assert(self@.skip(0) =~= self@);
        }
        let mut i: usize = 0;
        while i < self.rules.len()
            invariant
                i <= self.rules.len(),
                all == self@,
                spec_resolve(all, namespace@, pod@, container@) == spec_resolve(
                    self@.skip(i as int),
                    namespace@,
                    pod@,
                    container@,
                ),
            decreases self.rules.len() - i,
        {
            let ghost remaining = self@.skip(i as int);
            proof {
                assert(remaining[0] == self@[i as int]);
                assert(remaining.skip(1) =~= self@.skip(i as int + 1));
            }
            match self.rules[i].find_channel(namespace, pod, container) {
                Some(decision) => {
                    return decision;
                },
                None => (),
            }
            i = i + 1;
        }
        proof {
            assert(self@.skip(i as int) =~= Seq::<RuleView>::empty());
        }
        None
    }
}


/// Law: the first matching rule decides the outcome, whatever the later
/// rules would say; a matching rule without a channel short-circuits the
/// search and disables notification.
pub proof fn lemma_first_match_wins(
    rules: Seq<RuleView>,
    namespace: Seq<char>,
    pod: Seq<char>,
    container: Seq<char>,
)
    requires
        rules.len() > 0,
        rule_matches(rules[0], namespace, pod, container),
    ensures
        spec_resolve(rules, namespace, pod, container) == rules[0].channel,
{
}

/// Law: when no rule matches the triple, no notification is sent.
pub proof fn lemma_no_match_no_channel(
    rules: Seq<RuleView>,
    namespace: Seq<char>,
    pod: Seq<char>,
    container: Seq<char>,
)
    requires
        forall|i: int| 0 <= i < rules.len() ==> !rule_matches(#[trigger] rules[i], namespace, pod, container),
    ensures
        spec_resolve(rules, namespace, pod, container) is None,
    decreases rules.len(),
{
    if rules.len() > 0 {
        assert(forall|i: int|
            0 <= i < rules.skip(1).len() ==> rules.skip(1)[i] == rules[i + 1]);
        lemma_no_match_no_channel(rules.skip(1), namespace, pod, container);
    }
}

} // verus!
