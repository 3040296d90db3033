use vstd::prelude::*;

verus! {

/// Which side of a connection a port sits on.
#[derive(Debug, Clone, Copy, PartialEq, Eq, Structural)]
pub enum Direction {
    IN,
    OUT,
}

impl Direction {
    /// The direction that a port's `port.direction` property names: `"in"` is
    /// an input, anything else an output.
    pub fn from_port_direction(s: &str) -> (r: Direction)
        ensures
            r == spec_direction_of(s@),
    {
        let r = if s.unicode_len() == 2 && s.get_char(0) == 'i' && s.get_char(1) == 'n' {
            Direction::IN
        } else {
            Direction::OUT
        };
        proof {
            reveal_strlit("in");
            if r == Direction::IN {
                assert(s@ =~= "in"@);
            }
        }
        r
    }

    pub open spec fn opposite(self) -> Direction {
        match self {
            Direction::IN => Direction::OUT,
            Direction::OUT => Direction::IN,
        }
    }
}

pub open spec fn spec_direction_of(s: Seq<char>) -> Direction {
    if s == "in"@ {
        Direction::IN
    } else {
        Direction::OUT
    }
}

/// One connect fact of the rule index: the endpoint `name` is linked to
/// `partner`, and the partner supplies the ports of direction `partner_dir`.
pub struct ConnectRule {
    pub name: String,
    pub partner: String,
    pub partner_dir: Direction,
}

pub struct RuleView {
    pub name: Seq<char>,
    pub partner: Seq<char>,
    pub partner_dir: Direction,
}

impl View for ConnectRule {
    type V = RuleView;

    open spec fn view(&self) -> RuleView {
        RuleView { name: self.name@, partner: self.partner@, partner_dir: self.partner_dir }
    }
}

/// The rule index, built once at startup and read-only afterwards.
pub struct ConfigCache {
    pub connect: Vec<ConnectRule>,
    pub delete_in: Vec<String>,
    pub delete_out: Vec<String>,
}

pub struct ConfigView {
    pub connect: Seq<RuleView>,
    pub delete_in: Seq<Seq<char>>,
    pub delete_out: Seq<Seq<char>>,
}

impl View for ConfigCache {
    type V = ConfigView;

    open spec fn view(&self) -> ConfigView {
        ConfigView {
            connect: self.connect@.map_values(|r: ConnectRule| r@),
            delete_in: self.delete_in@.map_values(|s: String| s@),
            delete_out: self.delete_out@.map_values(|s: String| s@),
        }
    }
}

/// The connect fact for `name`: a later fact for the same name replaces an
/// earlier one.
pub open spec fn rule_for(rules: Seq<RuleView>, name: Seq<char>) -> Option<RuleView>
    decreases rules.len(),
{
    if rules.len() == 0 {
        None
    } else if rules.last().name == name {
        Some(rules.last())
    } else {
        rule_for(rules.drop_last(), name)
    }
}

pub open spec fn names_contain(names: Seq<Seq<char>>, name: Seq<char>) -> bool {
    exists|i: int| 0 <= i < names.len() && names[i] == name
}

impl ConfigView {
    /// An endpoint of this name has some rule, and is worth tracking.
    pub open spec fn is_relevant(self, name: Seq<char>) -> bool {
        rule_for(self.connect, name) is Some || names_contain(self.delete_in, name)
            || names_contain(self.delete_out, name)
    }

    pub open spec fn is_empty(self) -> bool {
        self.connect.len() == 0 && self.delete_in.len() == 0 && self.delete_out.len() == 0
    }

    /// The rule index after the connect pair `(output, input)` is added.
    pub open spec fn with_connect(self, output: Seq<char>, input: Seq<char>) -> ConfigView {
        ConfigView {
            connect: self.connect.push(
                RuleView { name: output, partner: input, partner_dir: Direction::IN },
            ).push(RuleView { name: input, partner: output, partner_dir: Direction::OUT }),
            ..self
        }
    }
}

fn contains_name(names: &Vec<String>, name: &String) -> (r: bool)
    ensures
        r == names_contain(names@.map_values(|s: String| s@), name@),
{
    let ghost v = names@.map_values(|s: String| s@);
    let mut i: usize = 0;
    while i < names.len()
        invariant
            i <= names.len(),
            v == names@.map_values(|s: String| s@),
            forall|k: int| 0 <= k < i ==> v[k] != name@,
        decreases names.len() - i,
    {
        if names[i] == *name {
            assert(v[i as int] == name@);
            return true;
        }
        i += 1;
    }
    false
}

impl ConfigCache {
    /// An empty rule index.
    pub fn new() -> (r: ConfigCache)
        ensures
            r@.is_empty(),
            r@.connect =~= Seq::<RuleView>::empty(),
            r@.delete_in =~= Seq::<Seq<char>>::empty(),
            r@.delete_out =~= Seq::<Seq<char>>::empty(),
    {
        ConfigCache { connect: Vec::new(), delete_in: Vec::new(), delete_out: Vec::new() }
    }

    /// Adds a connect pair: `output`'s output ports go to `input`'s input
    /// ports. Each endpoint learns its partner and the direction the partner
    /// supplies.
    pub fn add_connect(&mut self, output: String, input: String)
        ensures
            final(self)@ == old(self)@.with_connect(output@, input@),
    {
        let output2 = output.clone();
        let input2 = input.clone();
        self.connect.push(ConnectRule { name: output, partner: input, partner_dir: Direction::IN });
        self.connect.push(ConnectRule { name: input2, partner: output2, partner_dir: Direction::OUT });
        assert(self@.connect =~= old(self)@.with_connect(output@, input@).connect);
        assert(self@.delete_in =~= old(self)@.delete_in);
        assert(self@.delete_out =~= old(self)@.delete_out);
    }

    /// Marks `name` so that connections into its inputs are destroyed.
    pub fn add_delete_in(&mut self, name: String)
        ensures
            final(self)@ == (ConfigView { delete_in: old(self)@.delete_in.push(name@), ..old(self)@ }),
    {
        self.delete_in.push(name);
        assert(self@.connect =~= old(self)@.connect);
        assert(self@.delete_in =~= old(self)@.delete_in.push(name@));
        assert(self@.delete_out =~= old(self)@.delete_out);
    }

    /// Marks `name` so that connections out of its outputs are destroyed.
    pub fn add_delete_out(&mut self, name: String)
        ensures
            final(self)@ == (ConfigView { delete_out: old(self)@.delete_out.push(name@), ..old(self)@ }),
    {
        self.delete_out.push(name);
        assert(self@.connect =~= old(self)@.connect);
        assert(self@.delete_in =~= old(self)@.delete_in);
        assert(self@.delete_out =~= old(self)@.delete_out.push(name@));
    }

    /// No rule at all: nothing would ever be linked or deleted.
    pub fn is_empty(&self) -> (r: bool)
        ensures
            r == self@.is_empty(),
    {
        self.connect.len() == 0 && self.delete_in.len() == 0 && self.delete_out.len() == 0
    }

    /// The connect fact for `name`, if any.
    pub fn connect_rule(&self, name: &String) -> (r: Option<&ConnectRule>)
        ensures
            match r {
                Some(rule) => rule_for(self@.connect, name@) == Some(rule@),
                None => rule_for(self@.connect, name@) is None,
            },
    {
        let ghost rules = self@.connect;
        let mut i: usize = self.connect.len();
        assert(rules.subrange(0, i as int) =~= rules);
        while i > 0
            invariant
                i <= self.connect.len(),
                rules == self@.connect,
                rule_for(rules, name@) == rule_for(rules.subrange(0, i as int), name@),
            decreases i,
        {
            let ghost sub = rules.subrange(0, i as int);
            assert(sub.drop_last() =~= rules.subrange(0, i - 1));
            if self.connect[i - 1].name == *name {
                return Some(&self.connect[i - 1]);
            }
            i -= 1;
        }
        assert(rules.subrange(0, 0) =~= Seq::<RuleView>::empty());
        None
    }

    /// Whether an endpoint of this name is named by any rule.
    pub fn is_relevant(&self, name: &String) -> (r: bool)
        ensures
            r == self@.is_relevant(name@),
    {
        self.connect_rule(name).is_some() || contains_name(&self.delete_in, name)
            || contains_name(&self.delete_out, name)
    }

    /// Whether connections into `name`'s inputs are to be destroyed.
    pub fn deletes_inbound(&self, name: &String) -> (r: bool)
        ensures
            r == names_contain(self@.delete_in, name@),
    {
        contains_name(&self.delete_in, name)
    }

    /// Whether connections out of `name`'s outputs are to be destroyed.
    pub fn deletes_outbound(&self, name: &String) -> (r: bool)
        ensures
            r == names_contain(self@.delete_out, name@),
    {
        contains_name(&self.delete_out, name)
    }
}

/// Builds the rule index from parsed options: the connect pairs
/// `(output, input)` in order, then the endpoints whose inbound and outbound
/// connections are destroyed.
pub fn build_config(connects: Vec<(String, String)>, delete_in: Vec<String>, delete_out: Vec<String>) -> (r: ConfigCache)
    ensures
        r@.connect == connect_facts(connects@.map_values(|p: (String, String)| (p.0@, p.1@))),
        r@.delete_in == delete_in@.map_values(|s: String| s@),
        r@.delete_out == delete_out@.map_values(|s: String| s@),
{
    let ghost pairs = connects@.map_values(|p: (String, String)| (p.0@, p.1@));
    let mut cfg = ConfigCache { connect: Vec::new(), delete_in, delete_out };
    assert(cfg@.connect =~= connect_facts(pairs.subrange(0, 0)));
    let mut i: usize = 0;
    while i < connects.len()
        invariant
            i <= connects.len(),
            pairs == connects@.map_values(|p: (String, String)| (p.0@, p.1@)),
            cfg@.connect == connect_facts(pairs.subrange(0, i as int)),
            cfg@.delete_in == delete_in@.map_values(|s: String| s@),
            cfg@.delete_out == delete_out@.map_values(|s: String| s@),
        decreases connects.len() - i,
    {
        let output = connects[i].0.clone();
        let input = connects[i].1.clone();
        cfg.add_connect(output, input);
        assert(pairs.subrange(0, i + 1).drop_last() =~= pairs.subrange(0, i as int));
        i += 1;
    }
    assert(pairs.subrange(0, connects.len() as int) =~= pairs);
    cfg
}

/// The connect facts of a list of `(output, input)` pairs, two per pair.
pub open spec fn connect_facts(pairs: Seq<(Seq<char>, Seq<char>)>) -> Seq<RuleView>
    decreases pairs.len(),
{
    if pairs.len() == 0 {
        Seq::empty()
    } else {
        let prev = connect_facts(pairs.drop_last());
        let (output, input) = pairs.last();
        prev.push(RuleView { name: output, partner: input, partner_dir: Direction::IN }).push(
            RuleView { name: input, partner: output, partner_dir: Direction::OUT },
        )
    }
}

} // verus!
