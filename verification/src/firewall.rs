//! Firewall rules.

use vstd::prelude::*;
use vstd::string::StringExecFns;
use crate::codec::header;
use crate::codec::header::IPv8Address;
use crate::text;

verus! {

/// Which protocol a rule is about.
#[derive(Debug, Clone, Copy, PartialEq, Eq, Hash, Structural)]
pub enum Protocol {
    Tcp,
    Udp,
    Any,
    /// A protocol by its number.
    Custom(u8),
}

/// The protocol that a text names, in either case; any protocol where it
/// names none.
pub open spec fn protocol_of(t: Seq<char>) -> Protocol {
    let l = text::lowered(t);
    if l == "tcp"@ {
        Protocol::Tcp
    } else if l == "udp"@ {
        Protocol::Udp
    } else if l == "any"@ || l == "*"@ || l == "all"@ {
        Protocol::Any
    } else {
        match text::number_of(t, 255) {
            Some(n) => Protocol::Custom(n as u8),
            None => Protocol::Any,
        }
    }
}

impl Protocol {
    /// Whether a rule for this protocol is about protocol number `actual`.
    pub open spec fn admits(self, actual: u8) -> bool {
        match self {
            Protocol::Any => true,
            Protocol::Tcp => actual == 6,
            Protocol::Udp => actual == 17,
            Protocol::Custom(n) => n == actual,
        }
    }

    /// Reads the name or the number of a protocol.
    pub fn parse(s: &str) -> (r: Self)
        ensures
            r == protocol_of(s@),
    {
        proof {
            reveal_strlit("tcp");
            reveal_strlit("udp");
            reveal_strlit("any");
            reveal_strlit("*");
            reveal_strlit("all");
        }
        if text::lower_is(s, "tcp") {
            Protocol::Tcp
        } else if text::lower_is(s, "udp") {
            Protocol::Udp
        } else if text::lower_is(s, "any") || text::lower_is(s, "*") || text::lower_is(s, "all") {
            Protocol::Any
        } else {
            match text::parse_number(s, 255) {
                Some(n) => Protocol::Custom(n as u8),
                None => Protocol::Any,
            }
        }
    }

    /// Whether a rule for this protocol is about protocol number `actual`.
    pub fn matches(&self, actual: u8) -> (r: bool)
        ensures
            r == self.admits(actual),
    {
        match self {
            Protocol::Any => true,
            Protocol::Tcp => actual == 6,
            Protocol::Udp => actual == 17,
            Protocol::Custom(n) => *n == actual,
        }
    }

    /// The name of the protocol.
    pub fn as_str(&self) -> (r: &'static str)
        ensures
            r@ == match self {
                Protocol::Tcp => "tcp"@,
                Protocol::Udp => "udp"@,
                Protocol::Any => "any"@,
                Protocol::Custom(_) => "custom"@,
            },
    {
        match self {
            Protocol::Tcp => "tcp",
            Protocol::Udp => "udp",
            Protocol::Any => "any",
            Protocol::Custom(_) => "custom",
        }
    }
}

/// The way that packets go.
#[derive(Debug, Clone, Copy, PartialEq, Eq, Structural)]
pub enum Direction {
    Inbound,
    Outbound,
}

/// A rule that lets connections pass.
#[derive(Debug, Clone)]
pub struct Rule {
    pub id: String,
    pub name: String,
    pub protocol: Protocol,
    /// The first port.
    pub port_start: u16,
    /// The last port.
    pub port_end: u16,
    /// How the canonical text of the source begins; nothing or `*` for any.
    pub source_pattern: String,
    /// Where to forward to, as a canonical text; nothing for no forwarding.
    pub target_addr: String,
    /// The port to forward to; 0 for the same.
    pub target_port: u16,
    pub enabled: bool,
    pub direction: Direction,
    pub comment: String,
}

/// Whether rules are enabled unless they say otherwise.
pub fn default_enabled() -> (r: bool)
    ensures
        r,
{
    true
}

/// The direction of rules unless they say otherwise.
pub fn default_direction() -> (r: Direction)
    ensures
        r == Direction::Inbound,
{
    Direction::Inbound
}

/// The rule that let a connection pass.
#[derive(Debug, Clone)]
pub struct MatchResult {
    pub rule_id: String,
    /// Where to forward to.
    pub target: Option<IPv8Address>,
    pub target_port: u16,
}

/// Numbers of rules.
#[derive(Debug, Clone, Copy, PartialEq, Eq, Structural)]
pub struct RuleStats {
    pub total: usize,
    pub active: usize,
    pub disabled: usize,
}

/// Rules, in the order in which they are tried.
#[derive(Debug, Clone)]
pub struct RuleSet {
    pub rules: Vec<Rule>,
}

impl Default for RuleSet {
    fn default() -> (r: Self)
        ensures
            r.rules@ == Seq::<Rule>::empty(),
    {
        RuleSet { rules: Vec::new() }
    }
}

/// Where the first rule with an id stands.
pub open spec fn index_of(rules: Seq<Rule>, id: Seq<char>) -> Option<int> {
    if exists|i: int| 0 <= i < rules.len() && (#[trigger] rules[i]).id@ == id {
        Some(
            choose|i: int|
                0 <= i < rules.len() && (#[trigger] rules[i]).id@ == id && forall|j: int|
                    0 <= j < i ==> (#[trigger] rules[j]).id@ != id,
        )
    } else {
        None
    }
}

/// The rules with another id.
pub open spec fn without(rules: Seq<Rule>, id: Seq<char>) -> Seq<Rule>
    decreases rules.len(),
{
    if rules.len() == 0 {
        Seq::empty()
    } else if rules.last().id@ == id {
        without(rules.drop_last(), id)
    } else {
        without(rules.drop_last(), id).push(rules.last())
    }
}

/// The rules that are enabled.
pub open spec fn active(rules: Seq<Rule>) -> Seq<Rule>
    decreases rules.len(),
{
    if rules.len() == 0 {
        Seq::empty()
    } else if rules.last().enabled {
        active(rules.drop_last()).push(rules.last())
    } else {
        active(rules.drop_last())
    }
}

/// Whether a rule lets a connection pass.
pub open spec fn passes(rule: Rule, protocol: u8, port: u16, source: IPv8Address) -> bool {
    &&& rule.enabled
    &&& rule.protocol.admits(protocol)
    &&& rule.port_start <= port <= rule.port_end
    &&& rule.source_pattern@.len() == 0 || rule.source_pattern@ == "*"@ || text::begins_with(
        text::hex_text(source.bytes()),
        text::lowered(rule.source_pattern@),
    )
}

/// What a rule says of a connection that it lets pass.
pub open spec fn says(rule: Rule, port: u16, r: MatchResult) -> bool {
    &&& r.rule_id@ == rule.id@
    &&& r.target == if rule.target_addr@.len() == 0 {
        None
    } else {
        match header::address_of_text(rule.target_addr@) {
            Ok(a) => Some(a),
            Err(_) => None,
        }
    }
    &&& r.target_port == if rule.target_port == 0 {
        port
    } else {
        rule.target_port
    }
}

/// The first rule with an id is the only first one.
proof fn index_is(rules: Seq<Rule>, id: Seq<char>, i: int)
    requires
        0 <= i < rules.len(),
        rules[i].id@ == id,
        forall|j: int| 0 <= j < i ==> (#[trigger] rules[j]).id@ != id,
    ensures
        index_of(rules, id) == Some(i),
{
    let k = choose|k: int|
        0 <= k < rules.len() && (#[trigger] rules[k]).id@ == id && forall|j: int|
            0 <= j < k ==> (#[trigger] rules[j]).id@ != id;
    assert(rules[k].id@ == id && forall|j: int| 0 <= j < k ==> (#[trigger] rules[j]).id@ != id);
}

/// There are no more enabled rules than rules.
proof fn active_len(rules: Seq<Rule>)
    ensures
        active(rules).len() <= rules.len(),
    decreases rules.len(),
{
    if rules.len() > 0 {
        active_len(rules.drop_last());
    }
}

impl RuleSet {
    /// Where the first rule with an id stands.
    fn position(&self, id: &str) -> (r: Option<usize>)
        ensures
            match r {
                Some(i) => i < self.rules@.len() && index_of(self.rules@, id@) == Some(i as int),
                None => index_of(self.rules@, id@) is None,
            },
    {
        let mut i: usize = 0;
        while i < self.rules.len()
            invariant
                i <= self.rules.len(),
                forall|j: int| 0 <= j < i ==> (#[trigger] self.rules@[j]).id@ != id@,
            decreases self.rules.len() - i,
        {
            if text::same_text(self.rules[i].id.as_str(), id) {
                proof {
                    index_is(self.rules@, id@, i as int);
                }
                return Some(i);
            }
            i = i + 1;
        }
        None
    }

    /// Adds a rule, in place of the first one with the same id where there is
    /// one.
    pub fn add(&mut self, rule: Rule)
        ensures
            final(self).rules@ == match index_of(old(self).rules@, rule.id@) {
                Some(i) => old(self).rules@.update(i, rule),
                None => old(self).rules@.push(rule),
            },
    {
        match self.position(rule.id.as_str()) {
            Some(i) => {
                self.rules[i] = rule;
            },
            None => {
                self.rules.push(rule);
            },
        }
    }

    /// Takes out all rules with an id; tells whether there were any.
    pub fn remove(&mut self, id: &str) -> (r: bool)
        ensures
            final(self).rules@ == without(old(self).rules@, id@),
            r == (index_of(old(self).rules@, id@) is Some),
    {
        let ghost all = self.rules@;
        let ghost mut j: int = 0;
        let mut found: bool = false;
        let mut i: usize = 0;
        assert(all.subrange(0, 0) =~= Seq::empty());
        assert(self.rules@.subrange(0, 0) =~= Seq::empty());
        while i < self.rules.len()
            invariant
                0 <= i <= self.rules@.len(),
                0 <= j <= all.len(),
                self.rules@.len() - i == all.len() - j,
                self.rules@.subrange(0, i as int) == without(all.subrange(0, j), id@),
                forall|k: int| i <= k < self.rules@.len() ==> #[trigger] self.rules@[k] == all[k - i + j],
                found == exists|k: int| 0 <= k < j && (#[trigger] all[k]).id@ == id@,
            decreases self.rules@.len() - i,
        {
            let ghost before = self.rules@;
            assert(before[i as int] == all[j]);
            assert(all.subrange(0, j + 1).drop_last() =~= all.subrange(0, j));
            if text::same_text(self.rules[i].id.as_str(), id) {
                let _ = self.rules.remove(i);
                found = true;
                proof {
                    assert(self.rules@.subrange(0, i as int) =~= before.subrange(0, i as int));
                    j = j + 1;
                    assert(all[j - 1].id@ == id@);
                }
            } else {
                i = i + 1;
                proof {
                    assert(self.rules@.subrange(0, i as int) =~= before.subrange(0, i - 1).push(before[i - 1]));
                    j = j + 1;
                }
            }
        }
        proof {
            assert(all.subrange(0, j) =~= all);
            assert(self.rules@.subrange(0, i as int) =~= self.rules@);
        }
        found
    }

    /// Enables the first rule with an id where it is disabled, and disables it
    /// where it is enabled; tells whether there is one.
    pub fn toggle(&mut self, id: &str) -> (r: bool)
        ensures
            match index_of(old(self).rules@, id@) {
                Some(i) => {
                    let was = old(self).rules@[i];
                    r && final(self).rules@ == old(self).rules@.update(i, Rule { enabled: !was.enabled, ..was })
                },
                None => !r && final(self).rules@ == old(self).rules@,
            },
    {
        match self.position(id) {
            Some(i) => {
                self.rules[i].enabled = !self.rules[i].enabled;
                true
            },
            None => false,
        }
    }

    /// The rules that are enabled.
    pub fn active_rules(&self) -> (r: Vec<&Rule>)
        ensures
            r@.map_values(|x: &Rule| *x) == active(self.rules@),
    {
        let mut v: Vec<&Rule> = Vec::new();
        let mut i: usize = 0;
        assert(self.rules@.subrange(0, 0) =~= Seq::empty());
        assert(v@.map_values(|x: &Rule| *x) =~= active(self.rules@.subrange(0, 0)));
        while i < self.rules.len()
            invariant
                i <= self.rules.len(),
                v@.map_values(|x: &Rule| *x) == active(self.rules@.subrange(0, i as int)),
            decreases self.rules.len() - i,
        {
            let ghost before = v@.map_values(|x: &Rule| *x);
            assert(self.rules@.subrange(0, i + 1).drop_last() =~= self.rules@.subrange(0, i as int));
            if self.rules[i].enabled {
                v.push(&self.rules[i]);
                assert(v@.map_values(|x: &Rule| *x) =~= before.push(self.rules@[i as int]));
            }
            i = i + 1;
        }
        assert(self.rules@.subrange(0, i as int) =~= self.rules@);
        v
    }

    /// The first rule that lets a connection pass: of protocol number
    /// `protocol`, to `port`, from `source`.
    pub fn match_rule(&self, protocol: u8, port: u16, source: &IPv8Address) -> (r: Option<MatchResult>)
        ensures
            match r {
                Some(m) => exists|i: int|
                    0 <= i < self.rules@.len() && passes(#[trigger] self.rules@[i], protocol, port, *source) && says(
                        self.rules@[i],
                        port,
                        m,
                    ) && forall|j: int| 0 <= j < i ==> !passes(#[trigger] self.rules@[j], protocol, port, *source),
                None => forall|i: int|
                    0 <= i < self.rules@.len() ==> !passes(#[trigger] self.rules@[i], protocol, port, *source),
            },
    {
        let mut i: usize = 0;
        while i < self.rules.len()
            invariant
                i <= self.rules.len(),
                forall|j: int| 0 <= j < i ==> !passes(#[trigger] self.rules@[j], protocol, port, *source),
            decreases self.rules.len() - i,
        {
            let rule = &self.rules[i];
            if rule.enabled && rule.protocol.matches(protocol) && rule.port_start <= port && port <= rule.port_end
                && source_matches(rule.source_pattern.as_str(), source) {
                let target: Option<IPv8Address> = if rule.target_addr.as_str().is_empty() {
                    None
                } else {
                    match IPv8Address::from_canonical_str(rule.target_addr.as_str()) {
                        Ok(a) => Some(a),
                        Err(_) => None,
                    }
                };
                let target_port: u16 = if rule.target_port == 0 {
                    port
                } else {
                    rule.target_port
                };
                let m = MatchResult { rule_id: rule.id.clone(), target, target_port };
                assert(passes(self.rules@[i as int], protocol, port, *source) && says(self.rules@[i as int], port, m));
                return Some(m);
            }
            i = i + 1;
        }
        None
    }

    /// Numbers of rules.
    pub fn stats(&self) -> (r: RuleStats)
        ensures
            r.total == self.rules@.len(),
            r.active == active(self.rules@).len(),
            r.disabled == self.rules@.len() - active(self.rules@).len(),
    {
        proof {
            active_len(self.rules@);
        }
        let a = self.active_rules();
        assert(a@.len() == a@.map_values(|x: &Rule| *x).len());
        RuleStats { total: self.rules.len(), active: a.len(), disabled: self.rules.len() - a.len() }
    }
}

/// Whether a pattern is about a source.
fn source_matches(pattern: &str, source: &IPv8Address) -> (r: bool)
    ensures
        r == (pattern@.len() == 0 || pattern@ == "*"@ || text::begins_with(
            text::hex_text(source.bytes()),
            text::lowered(pattern@),
        )),
{
    if pattern.is_empty() || text::same_text(pattern, "*") {
        return true;
    }
    let t = source.to_canonical_string();
    proof {
        text::hex_text_is_ascii(source.bytes());
    }
    text::begins_with_lower(t.as_str(), pattern)
}

/// The id of a rule made at a time, in milliseconds since the epoch.
pub fn gen_rule_id(millis: u128) -> (s: String)
    ensures
        s@ == "rule-"@ + text::hex_number(millis as nat),
{
    let mut s = String::new();
    s.append("rule-");
    text::push_hex(&mut s, millis);
    assert(s@ =~= "rule-"@ + text::hex_number(millis as nat));
    s
}

/// A rule that was added is the first one with its id.
pub proof fn added_rule_is_found(rules: Seq<Rule>, rule: Rule)
    ensures
        ({
            let after = match index_of(rules, rule.id@) {
                Some(i) => rules.update(i, rule),
                None => rules.push(rule),
            };
            let i = index_of(after, rule.id@);
            i is Some && 0 <= i->0 < after.len() && after[i->0] == rule
        }),
{
    let id = rule.id@;
    match first_index(rules, id, 0) {
        Some(i) => {
            index_is(rules, id, i);
            index_is(rules.update(i, rule), id, i);
        },
        None => {
            index_is(rules.push(rule), id, rules.len() as int);
        },
    }
}

/// Where the first rule with an id stands, from `from` on.
proof fn first_index(rules: Seq<Rule>, id: Seq<char>, from: int) -> (r: Option<int>)
    requires
        0 <= from <= rules.len(),
    ensures
        match r {
            Some(i) => from <= i < rules.len() && rules[i].id@ == id && forall|j: int|
                from <= j < i ==> (#[trigger] rules[j]).id@ != id,
            None => forall|j: int| from <= j < rules.len() ==> (#[trigger] rules[j]).id@ != id,
        },
    decreases rules.len() - from,
{
    if from == rules.len() {
        None
    } else if rules[from].id@ == id {
        Some(from)
    } else {
        first_index(rules, id, from + 1)
    }
}

/// The rules of a list that has one rule more.
proof fn push_members(s: Seq<Rule>, x: Rule, r: Rule)
    ensures
        s.push(x).contains(r) <==> s.contains(r) || r == x,
{
    let t = s.push(x);
    if s.contains(r) {
        let i = choose|i: int| 0 <= i < s.len() && s[i] == r;
        assert(t[i] == r);
    }
    if r == x {
        assert(t[s.len() as int] == r);
    }
    if t.contains(r) {
        let i = choose|i: int| 0 <= i < t.len() && t[i] == r;
        if i < s.len() {
            assert(s[i] == r);
        }
    }
}

/// Which rules a removal leaves.
proof fn without_members(rules: Seq<Rule>, id: Seq<char>, r: Rule)
    ensures
        without(rules, id).contains(r) <==> rules.contains(r) && r.id@ != id,
    decreases rules.len(),
{
    if rules.len() > 0 {
        let front = rules.drop_last();
        without_members(front, id, r);
        push_members(front, rules.last(), r);
        assert(front.push(rules.last()) =~= rules);
        push_members(without(front, id), rules.last(), r);
    }
}

/// A removal of an id that no rule has changes nothing.
proof fn without_none(rules: Seq<Rule>, id: Seq<char>)
    requires
        forall|i: int| 0 <= i < rules.len() ==> (#[trigger] rules[i]).id@ != id,
    ensures
        without(rules, id) == rules,
    decreases rules.len(),
{
    if rules.len() > 0 {
        without_none(rules.drop_last(), id);
        assert(rules.drop_last().push(rules.last()) =~= rules);
    }
}

/// After a removal no rule with the id is left, every other rule is, and
/// nothing has changed where no rule had the id.
pub proof fn removed_rule_is_gone(rules: Seq<Rule>, id: Seq<char>)
    ensures
        index_of(without(rules, id), id) is None,
        forall|r: Rule| #[trigger] without(rules, id).contains(r) <==> rules.contains(r) && r.id@ != id,
        index_of(rules, id) is None ==> without(rules, id) == rules,
{
    let w = without(rules, id);
    assert forall|r: Rule| #[trigger] w.contains(r) <==> rules.contains(r) && r.id@ != id by {
        without_members(rules, id, r);
    }
    assert forall|k: int| 0 <= k < w.len() implies (#[trigger] w[k]).id@ != id by {
        assert(w.contains(w[k]));
    }
    if index_of(rules, id) is None {
        without_none(rules, id);
    }
}

/// To toggle a rule twice is to leave the rules as they are.
pub proof fn toggled_twice_is_unchanged(rules: Seq<Rule>, id: Seq<char>)
    requires
        index_of(rules, id) is Some,
    ensures
        ({
            let i = index_of(rules, id)->0;
            let once = rules.update(i, Rule { enabled: !rules[i].enabled, ..rules[i] });
            let j = index_of(once, id);
            j == Some(i) && once.update(i, Rule { enabled: !once[i].enabled, ..once[i] }) == rules
        }),
{
    let r = first_index(rules, id, 0);
    let i = r->0;
    index_is(rules, id, i);
    let once = rules.update(i, Rule { enabled: !rules[i].enabled, ..rules[i] });
    index_is(once, id, i);
    assert(once.update(i, Rule { enabled: !once[i].enabled, ..once[i] }) =~= rules);
}

/// A rule that is disabled lets nothing pass.
pub proof fn disabled_rule_passes_nothing(rule: Rule, protocol: u8, port: u16, source: IPv8Address)
    requires
        !rule.enabled,
    ensures
        !passes(rule, protocol, port, source),
{
}

/// Where a connection goes that a rule lets pass: to the very port that it came
/// for where the rule names none, and to the port of the rule otherwise; and to no
/// address where the rule names none.
pub proof fn target_of_a_match(rule: Rule, port: u16, m: MatchResult)
    requires
        says(rule, port, m),
    ensures
        rule.target_port == 0 ==> m.target_port == port,
        rule.target_port != 0 ==> m.target_port == rule.target_port,
        m.rule_id@ == rule.id@,
        rule.target_addr@.len() == 0 ==> m.target is None,
        m.target is Some ==> header::address_of_text(rule.target_addr@) == Ok::<IPv8Address, header::AddrParseError>(
            m.target->0,
        ),
        rule.target_addr@.len() > 0 && header::address_of_text(rule.target_addr@) is Ok ==> m.target is Some,
{
}

/// An enabled rule for every source lets pass the connections of its protocol to
/// its ports, and no others.
pub proof fn rule_for_every_source(rule: Rule, protocol: u8, port: u16, source: IPv8Address)
    requires
        rule.enabled,
        rule.source_pattern@.len() == 0 || rule.source_pattern@ == seq!['*'],
    ensures
        passes(rule, protocol, port, source) <==> rule.port_start <= port && port <= rule.port_end && match rule.protocol {
            Protocol::Tcp => protocol == 6,
            Protocol::Udp => protocol == 17,
            Protocol::Any => true,
            Protocol::Custom(n) => protocol == n,
        },
{
    reveal_strlit("*");
    assert("*"@ =~= seq!['*']);
}

/// A rule for some sources lets pass what one for every source would, as far as
/// the text of the source begins with the rule's pattern, in whatever case that
/// is written.
pub proof fn rule_for_some_sources(rule: Rule, all: Rule, protocol: u8, port: u16, source: IPv8Address)
    requires
        rule.source_pattern@.len() > 0,
        rule.source_pattern@ != seq!['*'],
        all.source_pattern@.len() == 0,
        all.enabled == rule.enabled,
        all.protocol == rule.protocol,
        all.port_start == rule.port_start,
        all.port_end == rule.port_end,
    ensures
        ({
            let p = rule.source_pattern@;
            let s = text::hex_text(source.bytes());
            passes(rule, protocol, port, source) <==> passes(all, protocol, port, source) && p.len() <= s.len() && forall|k: int|
                0 <= k < p.len() ==> (#[trigger] s[k]) as int == if 'A' <= p[k] && p[k] <= 'Z' {
                    p[k] as int + 32
                } else {
                    p[k] as int
                }
        }),
{
    reveal_strlit("*");
    let p = rule.source_pattern@;
    let s = text::hex_text(source.bytes());
    let l = text::lowered(p);
    assert("*"@ =~= seq!['*']);
    assert forall|k: int| 0 <= k < p.len() implies (#[trigger] l[k]) as int == if 'A' <= p[k] && p[k] <= 'Z' {
        p[k] as int + 32
    } else {
        p[k] as int
    } by {}
    if text::begins_with(s, l) {
        assert forall|k: int| 0 <= k < p.len() implies (#[trigger] s[k]) as int == if 'A' <= p[k] && p[k] <= 'Z' {
            p[k] as int + 32
        } else {
            p[k] as int
        } by {
            assert(s.subrange(0, l.len() as int)[k] == l[k]);
        }
    }
    if p.len() <= s.len() && forall|k: int|
        0 <= k < p.len() ==> (#[trigger] s[k]) as int == if 'A' <= p[k] && p[k] <= 'Z' {
            p[k] as int + 32
        } else {
            p[k] as int
        } {
        assert forall|k: int| 0 <= k < l.len() implies s.subrange(0, l.len() as int)[k] == l[k] by {
            assert(s[k] as int == l[k] as int);
        }
        assert(s.subrange(0, l.len() as int) =~= l);
    }
}

/// The names of the protocols, in whatever case they are written; a number is
/// that protocol, and any other text every protocol.
pub proof fn protocol_names(t: Seq<char>)
    ensures
        text::lowered(t) == seq!['t', 'c', 'p'] ==> protocol_of(t) == Protocol::Tcp,
        text::lowered(t) == seq!['u', 'd', 'p'] ==> protocol_of(t) == Protocol::Udp,
        text::lowered(t) == seq!['a', 'n', 'y'] ==> protocol_of(t) == Protocol::Any,
        t.len() > 0 && text::all_digits(t) && text::decimal_value(t) <= 255 ==> protocol_of(t) == Protocol::Custom(
            text::decimal_value(t) as u8,
        ),
        protocol_of(t) == Protocol::Tcp ==> text::lowered(t) == seq!['t', 'c', 'p'],
        protocol_of(t) == Protocol::Udp ==> text::lowered(t) == seq!['u', 'd', 'p'],
        text::decimal_value(text::unsigned_part(t)) > 255 ==> protocol_of(t) !is Custom,
{
    reveal_strlit("tcp");
    reveal_strlit("udp");
    reveal_strlit("any");
    reveal_strlit("*");
    reveal_strlit("all");
    assert("tcp"@ =~= seq!['t', 'c', 'p']);
    assert("udp"@ =~= seq!['u', 'd', 'p']);
    assert("any"@ =~= seq!['a', 'n', 'y']);
    if t.len() > 0 && text::all_digits(t) {
        assert('0' <= t[0] <= '9');
        assert(text::lowered(t)[0] == t[0]);
        assert("tcp"@[0] == 't' && "udp"@[0] == 'u' && "any"@[0] == 'a' && "*"@[0] == '*' && "all"@[0] == 'a');
    }
}

/// The enabled rules are in force, in their order, and no others.
pub proof fn active_rules_are_the_enabled_ones(rules: Seq<Rule>)
    ensures
        forall|r: Rule| #[trigger] active(rules).contains(r) <==> rules.contains(r) && r.enabled,
        active(rules).len() <= rules.len(),
    decreases rules.len(),
{
    if rules.len() > 0 {
        let front = rules.drop_last();
        active_rules_are_the_enabled_ones(front);
        assert(front.push(rules.last()) =~= rules);
        assert forall|r: Rule| #[trigger] active(rules).contains(r) <==> rules.contains(r) && r.enabled by {
            push_members(front, rules.last(), r);
            push_members(active(front), rules.last(), r);
        }
    }
}

} // verus!
