//! The device finite-state machine: prompt recognition, automatic replies,
//! and transition planning over a pattern-driven state graph.

use vstd::prelude::*;
use crate::errors::ConnectError;
use crate::strutil::{
    ascii_lower, lower_seq, replace_marker, replace_marker_exec, str_concat,
};
use crate::re::{
    regex_capture_group, regex_capture_named, regex_compiles, regex_match_indices, regex_new,
    regex_pattern, regex_set_compiles, regex_set_is_match, regex_set_matched_indices,
    regex_set_new, regex_set_patterns,
};

verus! {

/// A transition edge, as a caller supplies it:
/// `(from_state, command, to_state, is_exit, needs_format)`.
pub type Edge = (String, String, String, bool, bool);

/// An automatic-input rule for one write state.
pub struct InputRule {
    /// Lowercased state name the rule belongs to.
    pub state: String,
    /// When true, `value` is a key into the dynamic-parameter map.
    pub is_dynamic: bool,
    /// The literal reply, or the dynamic-parameter key.
    pub value: String,
    /// Whether the bytes that triggered this state stay in the output.
    pub record: bool,
}

/// A capture rule for one sys-prompt pattern.
struct CatchRule {
    /// Index of the pattern in the combined pattern list.
    pattern_index: usize,
    /// The pattern, compiled on its own so the group can be extracted.
    re: regex::Regex,
    /// Name of the capture group that yields the sys token.
    group: String,
}

/// Pattern-driven state machine for one device session.
pub struct DeviceHandler {
    /// Index of the current state in `all_states`.
    current_state_index: usize,
    /// All state names, lowercased: the three pre-states, then prompt,
    /// sys-prompt and write states in declaration order.
    all_states: Vec<String>,
    /// The combined pattern texts, in declaration order.
    all_patterns: Vec<String>,
    /// The combined pattern set, compiled.
    all_regex: regex::RegexSet,
    /// Maps a pattern index to the index of the state it recognises.
    regex_to_state: Vec<usize>,
    /// Index range (inclusive) of prompt states in `all_states`.
    prompt_index: (usize, usize),
    /// Index range (inclusive) of sys-prompt states in `all_states`.
    sys_prompt_index: (usize, usize),
    /// Automatic-input rules, keyed by lowercased state name.
    input_map: Vec<InputRule>,
    /// The transition graph, endpoints lowercased.
    edges: Vec<Edge>,
    /// Patterns of device errors that are treated as plain output.
    ignore_patterns: Vec<String>,
    /// The ignore patterns, compiled; `None` when there are none.
    ignore_regex: Option<regex::RegexSet>,
    /// Session-scoped dynamic parameters for input substitution.
    pub dyn_param: Vec<(String, String)>,
    /// Capture rules for sys-prompt patterns.
    catch_map: Vec<CatchRule>,
    /// Sys token captured from the last prompt, if any.
    sys: Option<String>,
    /// Last prompt line matched by the state machine.
    current_prompt: Option<String>,
    /// Prompt patterns grouped by state, for diagnostics.
    prompt_patterns: Vec<(String, String)>,
}

/// The name of the neutral pre-state.
pub open spec fn output_name() -> Seq<char> {
    seq!['o', 'u', 't', 'p', 'u', 't']
}

/// The name of the pagination pre-state.
pub open spec fn more_name() -> Seq<char> {
    seq!['m', 'o', 'r', 'e']
}

/// The name of the error pre-state.
pub open spec fn error_name() -> Seq<char> {
    seq!['e', 'r', 'r', 'o', 'r']
}

/// `ws` lists edge indices forming a walk from state `a` to state `b`.
pub open spec fn is_name_walk(edges: Seq<Edge>, a: Seq<char>, b: Seq<char>, ws: Seq<int>) -> bool
    decreases ws.len(),
{
    if ws.len() == 0 {
        a == b
    } else {
        &&& 0 <= ws[0] < edges.len()
        &&& edges[ws[0]].0@ == a
        &&& is_name_walk(edges, edges[ws[0]].2@, b, ws.skip(1))
    }
}

/// State `b` can be reached from state `a` along `edges`.
pub open spec fn name_reach(edges: Seq<Edge>, a: Seq<char>, b: Seq<char>) -> bool {
    exists|ws: Seq<int>| is_name_walk(edges, a, b, ws)
}

/// The command of edge `e`, after `{}` substitution when the edge asks for
/// it: with no sys token the command collapses to the empty string.
pub open spec fn edge_command(e: Edge, sys: Option<Seq<char>>) -> Seq<char> {
    if e.4 {
        match sys {
            Some(v) => replace_marker(e.1@, v),
            None => Seq::empty(),
        }
    } else {
        e.1@
    }
}

/// `plan` renders the walk `ws`: one `(command, to_state)` entry per edge.
pub open spec fn plan_renders_walk(
    edges: Seq<Edge>,
    ws: Seq<int>,
    plan: Seq<(String, String)>,
    sys: Option<Seq<char>>,
) -> bool {
    &&& plan.len() == ws.len()
    &&& forall|i: int|
        0 <= i < ws.len() ==> 0 <= #[trigger] ws[i] < edges.len() && plan[i].1@ == edges[ws[i]].2@
            && plan[i].0@ == edge_command(edges[ws[i]], sys)
}

impl DeviceHandler {
    /// All structural invariants of a handler.
    pub closed spec fn wf(&self) -> bool {
        &&& self.all_states@.len() >= 3
        &&& self.all_states@[0]@ == output_name()
        &&& self.all_states@[1]@ == more_name()
        &&& self.all_states@[2]@ == error_name()
        &&& (self.current_state_index as int) < self.all_states@.len()
        &&& self.regex_to_state@.len() == self.all_patterns@.len()
        &&& forall|i: int|
            0 <= i < self.regex_to_state@.len() ==> (#[trigger] self.regex_to_state@[i] as int)
                < self.all_states@.len()
        &&& regex_set_patterns(self.all_regex) == self.all_patterns.deep_view()
        &&& match self.ignore_regex {
            Some(s) => regex_set_patterns(s) == self.ignore_patterns.deep_view()
                && self.ignore_patterns@.len() > 0,
            None => self.ignore_patterns@.len() == 0,
        }
        &&& forall|i: int|
            0 <= i < self.catch_map@.len() ==> (#[trigger] self.catch_map@[i].pattern_index as int)
                < self.all_patterns@.len() && regex_pattern(self.catch_map@[i].re)
                == self.all_patterns@[self.catch_map@[i].pattern_index as int]@
        &&& forall|i: int|
            0 <= i < self.all_states@.len() ==> lower_seq(#[trigger] self.all_states@[i]@)
                == self.all_states@[i]@
        &&& forall|k: int|
            0 <= k < self.edges@.len() ==> lower_seq(#[trigger] self.edges@[k].0@)
                == self.edges@[k].0@ && lower_seq(self.edges@[k].2@) == self.edges@[k].2@
    }

    /// The state names, in index order.
    pub closed spec fn states_m(&self) -> Seq<Seq<char>> {
        self.all_states.deep_view()
    }

    /// The transition edges.
    pub closed spec fn edges_m(&self) -> Seq<Edge> {
        self.edges@
    }

    /// The combined pattern texts.
    pub closed spec fn patterns_m(&self) -> Seq<Seq<char>> {
        self.all_patterns.deep_view()
    }

    /// The automatic-input rules.
    pub closed spec fn inputs_m(&self) -> Seq<InputRule> {
        self.input_map@
    }

    /// The dynamic-parameter entries.
    pub closed spec fn dyn_param_m(&self) -> Seq<(String, String)> {
        self.dyn_param@
    }

    /// Index of the current state.
    pub closed spec fn state_index_m(&self) -> int {
        self.current_state_index as int
    }

    /// Name of the state at `i`.
    pub closed spec fn state_name_at(&self, i: int) -> Seq<char> {
        self.all_states@[i]@
    }

    /// Name of the current state.
    pub open spec fn current_state_m(&self) -> Seq<char> {
        self.state_name_at(self.state_index_m())
    }

    /// The captured sys token.
    pub closed spec fn sys_m(&self) -> Option<Seq<char>> {
        match self.sys {
            Some(v) => Some(v@),
            None => None,
        }
    }

    /// The last prompt line.
    pub closed spec fn prompt_m(&self) -> Option<Seq<char>> {
        match self.current_prompt {
            Some(v) => Some(v@),
            None => None,
        }
    }

    /// Whether state index `i` is a prompt state.
    pub closed spec fn is_prompt_index(&self, i: int) -> bool {
        self.prompt_index.0 as int <= i <= self.prompt_index.1 as int
    }

    /// Whether state index `i` is a sys-prompt state.
    pub closed spec fn is_sys_prompt_index(&self, i: int) -> bool {
        self.sys_prompt_index.0 as int <= i <= self.sys_prompt_index.1 as int
    }

    /// The pattern indices that match `line`, in declaration order.
    pub open spec fn match_list(&self, line: Seq<char>) -> Seq<int> {
        regex_match_indices(self.patterns_m(), line)
    }

    /// The state index each pattern recognises.
    pub closed spec fn pattern_states_m(&self) -> Seq<int> {
        states_of(self.regex_to_state@)
    }

    /// The ignore-error pattern texts.
    pub closed spec fn ignore_patterns_m(&self) -> Seq<Seq<char>> {
        self.ignore_patterns.deep_view()
    }

    /// Whether `line` matches some ignore-error pattern.
    pub open spec fn ignore_matches(&self, line: Seq<char>) -> bool {
        self.ignore_patterns_m().len() != 0 && regex_match_indices(
            self.ignore_patterns_m(),
            line,
        ).len() != 0
    }

    /// The state index `line` maps to: the state of the first matching
    /// pattern, or the neutral state when nothing matches.
    pub open spec fn line_state_index(&self, line: Seq<char>) -> int {
        if self.match_list(line).len() == 0 {
            0
        } else {
            self.pattern_states_m()[self.match_list(line)[0]]
        }
    }

    /// Whether reading `line` would leave the machine in the error state:
    /// the line is not an ignored error, and its state is named `error`.
    pub open spec fn line_sets_error(&self, line: Seq<char>) -> bool {
        !self.ignore_matches(line) && self.state_name_at(self.line_state_index(line))
            == error_name()
    }

    /// The capture rule attached to pattern `p`, if any: the first one wins.
    spec fn catch_rule_in(rules: Seq<CatchRule>, p: int) -> Option<CatchRule>
        decreases rules.len(),
    {
        if rules.len() == 0 {
            None
        } else if rules[0].pattern_index as int == p {
            Some(rules[0])
        } else {
            Self::catch_rule_in(rules.skip(1), p)
        }
    }

    /// The capture group attached to pattern `p`, if any.
    pub closed spec fn catch_group_m(&self, p: int) -> Option<Seq<char>> {
        match Self::catch_rule_in(self.catch_map@, p) {
            Some(rule) => Some(rule.group@),
            None => None,
        }
    }

    /// The sys token `line` yields: the winning pattern's capture group
    /// run over the line, when the pattern has one.
    pub open spec fn line_capture(&self, line: Seq<char>) -> Option<Seq<char>> {
        if self.match_list(line).len() == 0 {
            None
        } else {
            let p = self.match_list(line)[0];
            match self.catch_group_m(p) {
                Some(g) => regex_capture_group(self.patterns_m()[p], line, g),
                None => None,
            }
        }
    }

    /// Looks up the winning pattern index for `line`.
    fn match_line(&self, line: &str) -> (r: Option<usize>)
        requires
            self.wf(),
        ensures
            match r {
                Some(p) => self.match_list(line@).len() != 0 && p as int == self.match_list(line@)[0]
                    && (p as int) < self.patterns_m().len(),
                None => self.match_list(line@).len() == 0,
            },
    {
        let idx = regex_set_matched_indices(&self.all_regex, line);
        if idx.len() == 0 {
            proof {
                assert(self.match_list(line@) =~= idx@.map_values(|u: usize| u as int));
            }
            None
        } else {
            proof {
                assert(self.match_list(line@) == idx@.map_values(|u: usize| u as int));
                assert(idx@.map_values(|u: usize| u as int)[0] == idx@[0] as int);
            }
            Some(idx[0])
        }
    }

    /// Reads one line of output and moves the machine: a line matching an
    /// ignore-error pattern resets to the neutral state; otherwise the line's
    /// state becomes current, and a prompt state also stores the line as the
    /// prompt and re-captures the sys token.
    pub fn read(&mut self, line: &str)
        requires
            old(self).wf(),
        ensures
            final(self).wf(),
            final(self).config_m() == old(self).config_m(),
            forall|l: Seq<char>| #[trigger] final(self).line_state_index(l) == old(
                self,
            ).line_state_index(l),
            forall|i: int| #[trigger] final(self).is_prompt_index(i) == old(self).is_prompt_index(
                i,
            ),
            forall|i: int| #[trigger] final(self).is_sys_prompt_index(i) == old(
                self,
            ).is_sys_prompt_index(i),
            forall|l: Seq<char>| #[trigger] final(self).need_write_spec(l) == old(
                self,
            ).need_write_spec(l),
            forall|l: Seq<char>| #[trigger] final(self).line_sets_error(l) == old(
                self,
            ).line_sets_error(l),
            forall|l: Seq<char>| #[trigger] final(self).ignore_matches(l) == old(
                self,
            ).ignore_matches(l),
            forall|i: int| #[trigger] final(self).state_name_at(i) == old(self).state_name_at(i),
            final(self).states_m() == old(self).states_m(),
            final(self).edges_m() == old(self).edges_m(),
            final(self).patterns_m() == old(self).patterns_m(),
            final(self).inputs_m() == old(self).inputs_m(),
            final(self).dyn_param_m() == old(self).dyn_param_m(),
            old(self).ignore_matches(line@) ==> final(self).state_index_m() == 0
                && final(self).sys_m() == old(self).sys_m()
                && final(self).prompt_m() == old(self).prompt_m(),
            !old(self).ignore_matches(line@)
                ==> final(self).state_index_m() == old(self).line_state_index(line@),
            !old(self).ignore_matches(line@)
                && old(self).is_prompt_index(old(self).line_state_index(line@))
                ==> final(self).prompt_m() == Some(line@)
                && final(self).sys_m() == old(self).line_capture(line@),
            !old(self).ignore_matches(line@)
                && !old(self).is_prompt_index(old(self).line_state_index(line@))
                ==> final(self).prompt_m() == old(self).prompt_m()
                && final(self).sys_m() == old(self).sys_m(),
            final(self).is_prompt_index(final(self).state_index_m()) == old(self).is_prompt_index(
                final(self).state_index_m(),
            ),
    {
        let matched = self.match_line(line);
        let ignored = match &self.ignore_regex {
            Some(s) => regex_set_is_match(s, line),
            None => false,
        };
        if ignored {
            self.current_state_index = 0;
            return ;
        }
        let state_index: usize = match matched {
            Some(p) => self.regex_to_state[p],
            None => 0,
        };
        if self.prompt_index.0 <= state_index && state_index <= self.prompt_index.1 {
            let catch = match matched {
                Some(p) => self.capture_at(p, line),
                None => None,
            };
            proof {
                if matched is None {
                    assert(self.line_capture(line@) is None);
                }
            }
            self.sys = catch;
            self.current_prompt = Some(line.to_owned());
        }
        self.current_state_index = state_index;
    }

    /// Runs the capture rule attached to pattern `p` on `line`, if any.
    fn capture_at(&self, p: usize, line: &str) -> (r: Option<String>)
        requires
            self.wf(),
            (p as int) < self.patterns_m().len(),
        ensures
            match r {
                Some(v) => self.capture_spec(p as int, line@) == Some(v@),
                None => self.capture_spec(p as int, line@) is None,
            },
    {
        let mut i: usize = 0;
        while i < self.catch_map.len()
            invariant
                self.wf(),
                (p as int) < self.patterns_m().len(),
                i <= self.catch_map@.len(),
                forall|j: int| 0 <= j < i ==> (#[trigger] self.catch_map@[j].pattern_index as int)
                    != p as int,
            decreases self.catch_map@.len() - i,
        {
            if self.catch_map[i].pattern_index == p {
                proof {
                    lemma_catch_rule_skip(self.catch_map@, i as int, p as int);
                    assert(self.catch_map@.skip(i as int)[0] == self.catch_map@[i as int]);
                    assert(Self::catch_rule_in(self.catch_map@, p as int) == Some(
                        self.catch_map@[i as int],
                    ));
                }
                return regex_capture_named(
                    &self.catch_map[i].re,
                    line,
                    self.catch_map[i].group.as_str(),
                );
            }
            i += 1;
        }
        proof {
            lemma_catch_rule_skip(self.catch_map@, self.catch_map@.len() as int, p as int);
        }
        None
    }

    /// What `line_capture` yields when pattern `p` wins.
    spec fn capture_spec(&self, p: int, line: Seq<char>) -> Option<Seq<char>> {
        match Self::catch_rule_in(self.catch_map@, p) {
            Some(rule) => regex_capture_group(self.all_patterns@[p]@, line, rule.group@),
            None => None,
        }
    }

    /// True iff `line` maps to a prompt state.
    pub fn read_prompt(&mut self, line: &str) -> (r: bool)
        requires
            old(self).wf(),
        ensures
            *final(self) == *old(self),
            r == old(self).is_prompt_index(old(self).line_state_index(line@)),
    {
        let matched = self.match_line(line);
        let state_index: usize = match matched {
            Some(p) => self.regex_to_state[p],
            None => 0,
        };
        self.prompt_index.0 <= state_index && state_index <= self.prompt_index.1
    }

    /// True iff `line` maps to a sys-prompt state.
    pub fn read_sys_prompt(&mut self, line: &str) -> (r: bool)
        requires
            old(self).wf(),
        ensures
            *final(self) == *old(self),
            r == old(self).is_sys_prompt_index(old(self).line_state_index(line@)),
    {
        let matched = self.match_line(line);
        let state_index: usize = match matched {
            Some(p) => self.regex_to_state[p],
            None => 0,
        };
        self.sys_prompt_index.0 <= state_index && state_index <= self.sys_prompt_index.1
    }

    /// The automatic-input rule for state name `s`, if any: first rule wins.
    pub open spec fn input_rule_for(rules: Seq<InputRule>, s: Seq<char>) -> Option<InputRule>
        decreases rules.len(),
    {
        if rules.len() == 0 {
            None
        } else if rules[0].state@ == s {
            Some(rules[0])
        } else {
            Self::input_rule_for(rules.skip(1), s)
        }
    }

    /// The value of key `k` in the dynamic-parameter map, if present.
    pub open spec fn dyn_param_value(params: Seq<(String, String)>, k: Seq<char>) -> Option<
        Seq<char>,
    >
        decreases params.len(),
    {
        if params.len() == 0 {
            None
        } else if params[0].0@ == k {
            Some(params[0].1@)
        } else {
            Self::dyn_param_value(params.skip(1), k)
        }
    }

    /// The reply the machine owes after seeing `line`, with its record flag:
    /// the input rule of the line's state, resolved through the
    /// dynamic-parameter map when the rule is dynamic.
    pub open spec fn need_write_spec(&self, line: Seq<char>) -> Option<(Seq<char>, bool)> {
        let name = self.state_name_at(self.line_state_index(line));
        match Self::input_rule_for(self.inputs_m(), name) {
            Some(rule) => if rule.is_dynamic {
                match Self::dyn_param_value(self.dyn_param_m(), rule.value@) {
                    Some(v) => Some((v, rule.record)),
                    None => None,
                }
            } else {
                Some((rule.value@, rule.record))
            },
            None => None,
        }
    }

    /// Checks whether `line` triggers an automatic input, and returns the
    /// reply to send together with its record flag.
    pub fn read_need_write(&mut self, line: &str) -> (r: Option<(String, bool)>)
        requires
            old(self).wf(),
        ensures
            *final(self) == *old(self),
            match r {
                Some(v) => old(self).need_write_spec(line@) == Some((v.0@, v.1)),
                None => old(self).need_write_spec(line@) is None,
            },
    {
        let matched = self.match_line(line);
        let state_index: usize = match matched {
            Some(p) => self.regex_to_state[p],
            None => 0,
        };
        let name = self.all_states[state_index].clone();
        proof {
            assert(name@ == self.state_name_at(self.line_state_index(line@)));
        }
        let mut i: usize = 0;
        while i < self.input_map.len()
            invariant
                self.wf(),
                *self == *old(self),
                name@ == self.state_name_at(self.line_state_index(line@)),
                i <= self.input_map@.len(),
                forall|j: int| 0 <= j < i ==> (#[trigger] self.input_map@[j].state@) != name@,
            decreases self.input_map@.len() - i,
        {
            if str_eq(self.input_map[i].state.as_str(), name.as_str()) {
                proof {
                    lemma_input_rule_skip(self.input_map@, i as int, name@);
                    assert(self.input_map@.skip(i as int)[0] == self.input_map@[i as int]);
                    assert(Self::input_rule_for(self.input_map@, name@) == Some(
                        self.input_map@[i as int],
                    ));
                }
                let rule = &self.input_map[i];
                if rule.is_dynamic {
                    let looked = self.dyn_lookup(rule.value.as_str());
                    return match looked {
                        Some(v) => Some((v, rule.record)),
                        None => None,
                    };
                }
                return Some((rule.value.clone(), rule.record));
            }
            i += 1;
        }
        proof {
            lemma_input_rule_skip(self.input_map@, self.input_map@.len() as int, name@);
        }
        None
    }

    /// Looks up a dynamic parameter by key.
    fn dyn_lookup(&self, k: &str) -> (r: Option<String>)
        ensures
            match r {
                Some(v) => Self::dyn_param_value(self.dyn_param_m(), k@) == Some(v@),
                None => Self::dyn_param_value(self.dyn_param_m(), k@) is None,
            },
    {
        let mut i: usize = 0;
        while i < self.dyn_param.len()
            invariant
                i <= self.dyn_param@.len(),
                forall|j: int| 0 <= j < i ==> (#[trigger] self.dyn_param@[j].0@) != k@,
            decreases self.dyn_param@.len() - i,
        {
            if str_eq(self.dyn_param[i].0.as_str(), k) {
                proof {
                    lemma_dyn_param_skip(self.dyn_param@, i as int, k@);
                    assert(self.dyn_param@.skip(i as int)[0] == self.dyn_param@[i as int]);
                    assert(Self::dyn_param_value(self.dyn_param@, k@) == Some(
                        self.dyn_param@[i as int].1@,
                    ));
                }
                return Some(self.dyn_param[i].1.clone());
            }
            i += 1;
        }
        proof {
            lemma_dyn_param_skip(self.dyn_param@, self.dyn_param@.len() as int, k@);
        }
        None
    }

    /// The current state's name (always lowercase, always a declared state).
    pub fn current_state(&self) -> (r: String)
        requires
            self.wf(),
        ensures
            r@ == self.current_state_m(),
            self.states_m().contains(r@),
            lower_seq(r@) == r@,
    {
        let r = self.all_states[self.current_state_index].clone();
        proof {
            assert(self.states_m()[self.state_index_m()] == r@);
        }
        r
    }

    /// The captured sys token, if any.
    pub fn current_sys(&self) -> (r: Option<String>)
        ensures
            match r {
                Some(v) => self.sys_m() == Some(v@),
                None => self.sys_m() is None,
            },
    {
        match &self.sys {
            Some(v) => Some(v.clone()),
            None => None,
        }
    }

    /// The last prompt line matched, if any.
    pub fn current_prompt(&self) -> (r: Option<String>)
        ensures
            match r {
                Some(v) => self.prompt_m() == Some(v@),
                None => self.prompt_m() is None,
            },
    {
        match &self.current_prompt {
            Some(v) => Some(v.clone()),
            None => None,
        }
    }

    /// All declared state names.
    pub fn states(&self) -> (r: Vec<String>)
        ensures
            r.deep_view() == self.states_m(),
    {
        let mut r: Vec<String> = Vec::new();
        let mut i: usize = 0;
        while i < self.all_states.len()
            invariant
                i <= self.all_states@.len(),
                r@.len() == i,
                r.deep_view() == self.all_states.deep_view().subrange(0, i as int),
            decreases self.all_states@.len() - i,
        {
            r.push(self.all_states[i].clone());
            proof {
                assert(r.deep_view() =~~= self.all_states.deep_view().subrange(0, i + 1));
            }
            i += 1;
        }
        proof {
            assert(self.all_states.deep_view().subrange(
                0,
                self.all_states.deep_view().len() as int,
            ) =~~= self.all_states.deep_view());
        }
        r
    }

    /// All configured transition edges.
    pub fn edges(&self) -> (r: Vec<Edge>)
        ensures
            r@.len() == self.edges_m().len(),
            forall|k: int|
                0 <= k < r@.len() ==> (#[trigger] r@[k].0@) == self.edges_m()[k].0@ && r@[k].1@
                    == self.edges_m()[k].1@ && r@[k].2@ == self.edges_m()[k].2@ && r@[k].3
                    == self.edges_m()[k].3 && r@[k].4 == self.edges_m()[k].4,
    {
        let mut r: Vec<Edge> = Vec::new();
        let mut i: usize = 0;
        while i < self.edges.len()
            invariant
                i <= self.edges@.len(),
                r@.len() == i,
                forall|k: int|
                    0 <= k < i ==> (#[trigger] r@[k].0@) == self.edges@[k].0@ && r@[k].1@
                        == self.edges@[k].1@ && r@[k].2@ == self.edges@[k].2@ && r@[k].3
                        == self.edges@[k].3 && r@[k].4 == self.edges@[k].4,
            decreases self.edges@.len() - i,
        {
            let e = &self.edges[i];
            r.push((e.0.clone(), e.1.clone(), e.2.clone(), e.3, e.4));
            i += 1;
        }
        r
    }

    /// Bridges the state list to the per-index name, and names the three
    /// pre-states: callers can identify the neutral, pagination and error
    /// states from the constructor's ensures alone.
    pub proof fn lemma_state_names(&self)
        requires
            self.wf(),
        ensures
            self.states_m().len() >= 3,
            forall|i: int|
                0 <= i < self.states_m().len() ==> #[trigger] self.states_m()[i]
                    == self.state_name_at(i),
            self.state_name_at(0) == output_name(),
            self.state_name_at(1) == more_name(),
            self.state_name_at(2) == error_name(),
    {
        assert forall|i: int|
            0 <= i < self.states_m().len() implies #[trigger] self.states_m()[i]
            == self.state_name_at(i) by {
            assert(self.states_m()[i] == (self.all_states@[i])@);
        }
    }

    /// True iff the machine currently sits in the error pre-state.
    pub fn error(&self) -> (r: bool)
        requires
            self.wf(),
        ensures
            r == (self.current_state_m() == error_name()),
    {
        let name = self.all_states[self.current_state_index].as_str();
        let r = str_eq(name, "error");
        proof {
            reveal_strlit("error");
            assert("error"@ =~= error_name());
        }
        r
    }
}

/// Helper: when the first `i` rules do not name `s`, the lookup continues
/// in the tail.
proof fn lemma_input_rule_skip(rules: Seq<InputRule>, i: int, s: Seq<char>)
    requires
        0 <= i <= rules.len(),
        forall|j: int| 0 <= j < i ==> (#[trigger] rules[j].state@) != s,
    ensures
        DeviceHandler::input_rule_for(rules, s) == DeviceHandler::input_rule_for(rules.skip(i), s),
    decreases i,
{
    if i > 0 {
        assert(rules[0].state@ != s);
        lemma_input_rule_skip(rules.skip(1), i - 1, s);
        assert(rules.skip(1).skip(i - 1) =~= rules.skip(i));
    } else {
        assert(rules.skip(0) =~= rules);
    }
}

/// Helper: when the first `i` rules are not for pattern `p`, the lookup
/// continues in the tail.
proof fn lemma_catch_rule_skip(rules: Seq<CatchRule>, i: int, p: int)
    requires
        0 <= i <= rules.len(),
        forall|j: int| 0 <= j < i ==> (#[trigger] rules[j].pattern_index as int) != p,
    ensures
        DeviceHandler::catch_rule_in(rules, p) == DeviceHandler::catch_rule_in(rules.skip(i), p),
    decreases i,
{
    if i > 0 {
        assert(rules[0].pattern_index as int != p);
        lemma_catch_rule_skip(rules.skip(1), i - 1, p);
        assert(rules.skip(1).skip(i - 1) =~= rules.skip(i));
    } else {
        assert(rules.skip(0) =~= rules);
    }
}

/// A catch list whose `j`-th rule is for pattern `base + j` looks up by
/// subtraction.
proof fn lemma_catch_lookup(rules: Seq<CatchRule>, base: int, p: int)
    requires
        forall|j: int| 0 <= j < rules.len() ==> (#[trigger] rules[j].pattern_index as int)
            == base + j,
    ensures
        DeviceHandler::catch_rule_in(rules, p) == (if base <= p < base + rules.len() {
            Some(rules[p - base])
        } else {
            None::<CatchRule>
        }),
    decreases rules.len(),
{
    if rules.len() > 0 {
        assert(rules[0].pattern_index as int == base);
        assert(forall|j: int|
            0 <= j < rules.skip(1).len() ==> (#[trigger] rules.skip(1)[j].pattern_index as int)
                == base + 1 + j);
        lemma_catch_lookup(rules.skip(1), base + 1, p);
        if p != base && base <= p < base + rules.len() {
            assert(rules.skip(1)[p - base - 1] == rules[p - base]);
        }
    }
}

/// Helper: when the first `i` keys differ from `k`, the lookup continues
/// in the tail.
proof fn lemma_dyn_param_skip(params: Seq<(String, String)>, i: int, k: Seq<char>)
    requires
        0 <= i <= params.len(),
        forall|j: int| 0 <= j < i ==> (#[trigger] params[j].0@) != k,
    ensures
        DeviceHandler::dyn_param_value(params, k) == DeviceHandler::dyn_param_value(
            params.skip(i),
            k,
        ),
    decreases i,
{
    if i > 0 {
        assert(params[0].0@ != k);
        lemma_dyn_param_skip(params.skip(1), i - 1, k);
        assert(params.skip(1).skip(i - 1) =~= params.skip(i));
    } else {
        assert(params.skip(0) =~= params);
    }
}

/// Character-wise string equality, proved rather than assumed.
pub fn str_eq(a: &str, b: &str) -> (r: bool)
    ensures
        r == (a@ == b@),
{
    let na = a.unicode_len();
    let nb = b.unicode_len();
    if na != nb {
        return false;
    }
    let mut i: usize = 0;
    while i < na
        invariant
            i <= na,
            na == a@.len(),
            na == b@.len(),
            forall|j: int| 0 <= j < i ==> a@[j] == b@[j],
        decreases na - i,
    {
        if a.get_char(i) != b.get_char(i) {
            return false;
        }
        i += 1;
    }
    proof {
        assert(a@ =~= b@);
    }
    true
}

} // verus!

verus! {

/// The wrapping prefix put before every prompt pattern:
/// tolerates leading NULs and one optional carriage return.
pub open spec fn wrap_prefix() -> Seq<char> {
    seq!['^', '\\', 'x', '0', '0', '*', '\\', 'r', '{', '0', ',', '1', '}']
}

/// `s` with every leading `^` removed.
pub open spec fn strip_carets_spec(s: Seq<char>) -> Seq<char>
    decreases s.len(),
{
    if s.len() > 0 && s[0] == '^' {
        strip_carets_spec(s.skip(1))
    } else {
        s
    }
}

/// The effective pattern for a user-supplied prompt pattern.
pub open spec fn wrap_pattern_spec(p: Seq<char>) -> Seq<char> {
    wrap_prefix() + strip_carets_spec(p)
}

proof fn lemma_strip_carets_at(s: Seq<char>, j: int)
    requires
        0 <= j <= s.len(),
        forall|k: int| 0 <= k < j ==> s[k] == '^',
        j == s.len() || s[j] != '^',
    ensures
        strip_carets_spec(s) == s.skip(j),
    decreases j,
{
    if j > 0 {
        assert(s[0] == '^');
        lemma_strip_carets_at(s.skip(1), j - 1);
        assert(s.skip(1).skip(j - 1) =~= s.skip(j));
    } else {
        assert(s.skip(0) =~= s);
    }
}

/// Wraps one prompt pattern: the common prefix, then the pattern with any
/// leading `^` stripped.
pub fn wrap_pattern(p: &str) -> (r: String)
    ensures
        r@ == wrap_pattern_spec(p@),
{
    let n = p.unicode_len();
    let mut j: usize = 0;
    while j < n && p.get_char(j) == '^'
        invariant
            j <= n,
            n == p@.len(),
            forall|k: int| 0 <= k < j ==> p@[k] == '^',
        decreases n - j,
    {
        j += 1;
    }
    proof {
        lemma_strip_carets_at(p@, j as int);
    }
    let stripped = p.substring_char(j, n);
    proof {
        assert(stripped@ =~= p@.skip(j as int));
    }
    let prefix = "^\\x00*\\r{0,1}";
    proof {
        reveal_strlit("^\\x00*\\r{0,1}");
        assert(prefix@ =~= wrap_prefix());
    }
    str_concat(prefix, stripped)
}

/// The state indices of a pattern-to-state table, as integers.
pub open spec fn states_of(v: Seq<usize>) -> Seq<int> {
    Seq::new(v.len(), |j: int| v[j] as int)
}

/// Every pattern of the list, wrapped.
pub open spec fn wrapped_all(ps: Seq<Seq<char>>) -> Seq<Seq<char>> {
    Seq::new(ps.len(), |j: int| wrap_pattern_spec(ps[j]))
}

/// `n` copies of the state index `v`.
pub open spec fn rep_states(v: int, n: int) -> Seq<int> {
    if n >= 0 {
        Seq::new(n as nat, |x: int| v)
    } else {
        Seq::empty()
    }
}

/// The wrapped prompt patterns of the groups, flattened in declaration
/// order.
pub open spec fn prompt_patterns_built(groups: Seq<(String, Vec<String>)>) -> Seq<Seq<char>>
    decreases groups.len(),
{
    if groups.len() == 0 {
        Seq::empty()
    } else {
        prompt_patterns_built(groups.drop_last()) + wrapped_all(groups.last().1.deep_view())
    }
}

/// The state index of each prompt pattern, group `j` owning index
/// `base + j`.
pub open spec fn prompt_states_built(groups: Seq<(String, Vec<String>)>, base: int) -> Seq<int>
    decreases groups.len(),
{
    if groups.len() == 0 {
        Seq::empty()
    } else {
        prompt_states_built(groups.drop_last(), base) + rep_states(
            base + groups.len() - 1,
            groups.last().1@.len() as int,
        )
    }
}

/// The wrapped sys-prompt patterns, one per group.
pub open spec fn sys_patterns_built(groups: Seq<(String, String, String)>) -> Seq<Seq<char>> {
    groups.map_values(|g: (String, String, String)| wrap_pattern_spec(g.1@))
}

/// The raw write-state patterns, flattened in declaration order.
pub open spec fn write_patterns_built(
    groups: Seq<(String, (bool, String, bool), Vec<String>)>,
) -> Seq<Seq<char>>
    decreases groups.len(),
{
    if groups.len() == 0 {
        Seq::empty()
    } else {
        write_patterns_built(groups.drop_last()) + groups.last().2.deep_view()
    }
}

/// The state index of each write pattern, group `j` owning `base + j`.
pub open spec fn write_states_built(
    groups: Seq<(String, (bool, String, bool), Vec<String>)>,
    base: int,
) -> Seq<int>
    decreases groups.len(),
{
    if groups.len() == 0 {
        Seq::empty()
    } else {
        write_states_built(groups.drop_last(), base) + rep_states(
            base + groups.len() - 1,
            groups.last().2@.len() as int,
        )
    }
}

/// The combined pattern list a handler is built with: pagination, error,
/// prompt, sys-prompt and write patterns, in that order.
pub open spec fn combined_patterns(
    more: Seq<Seq<char>>,
    error: Seq<Seq<char>>,
    prompt: Seq<(String, Vec<String>)>,
    sys: Seq<(String, String, String)>,
    write: Seq<(String, (bool, String, bool), Vec<String>)>,
) -> Seq<Seq<char>> {
    more + error + prompt_patterns_built(prompt) + sys_patterns_built(sys) + write_patterns_built(
        write,
    )
}

/// The state index each combined pattern recognises.
pub open spec fn combined_states(
    more: Seq<Seq<char>>,
    error: Seq<Seq<char>>,
    prompt: Seq<(String, Vec<String>)>,
    sys: Seq<(String, String, String)>,
    write: Seq<(String, (bool, String, bool), Vec<String>)>,
) -> Seq<int> {
    rep_states(1, more.len() as int) + rep_states(2, error.len() as int) + prompt_states_built(
        prompt,
        3,
    ) + Seq::new(sys.len(), |j: int| 3 + prompt.len() + j) + write_states_built(
        write,
        3 + prompt.len() as int + sys.len() as int,
    )
}

/// Lower-casing is idempotent.
pub proof fn lemma_lower_idempotent(s: Seq<char>)
    ensures
        lower_seq(lower_seq(s)) == lower_seq(s),
{
    assert forall|i: int| 0 <= i < s.len() implies crate::strutil::lower_char(
        lower_seq(s)[i],
    ) == lower_seq(s)[i] by {
        assert(lower_seq(s)[i] == crate::strutil::lower_char(s[i]));
    }
    assert(lower_seq(lower_seq(s)) =~= lower_seq(s));
}

/// The automatic-input rule the constructor owes for state name `s`:
/// the pagination pre-state always answers a space; otherwise the last
/// write group with that (lowercased) name decides.
pub open spec fn expected_input(
    write: Seq<(String, (bool, String, bool), Vec<String>)>,
    s: Seq<char>,
) -> Option<(bool, Seq<char>, bool)>
    decreases write.len(),
{
    if s == more_name() {
        Some((false, seq![' '], false))
    } else {
        expected_write_input(write, s)
    }
}

/// The rule of the last write group whose lowercased name is `s`.
pub open spec fn expected_write_input(
    write: Seq<(String, (bool, String, bool), Vec<String>)>,
    s: Seq<char>,
) -> Option<(bool, Seq<char>, bool)>
    decreases write.len(),
{
    if write.len() == 0 {
        None
    } else if lower_seq(write.last().0@) == s {
        Some((write.last().1.0, write.last().1.1@, write.last().1.2))
    } else {
        expected_write_input(write.drop_last(), s)
    }
}

/// An input rule seen as plain values.
pub open spec fn rule_values(r: InputRule) -> (bool, Seq<char>, bool) {
    (r.is_dynamic, r.value@, r.record)
}

/// What `input_rule_for` yields, as plain values.
pub open spec fn rule_lookup(rules: Seq<InputRule>, s: Seq<char>) -> Option<(bool, Seq<char>, bool)> {
    match DeviceHandler::input_rule_for(rules, s) {
        Some(r) => Some(rule_values(r)),
        None => None,
    }
}

/// Inserts or replaces the rule for `rule.state`, map-style.
fn input_put(rules: &mut Vec<InputRule>, rule: InputRule)
    ensures
        forall|s: Seq<char>|
            #[trigger] rule_lookup(final(rules)@, s) == if s == rule.state@ {
                Some(rule_values(rule))
            } else {
                rule_lookup(old(rules)@, s)
            },
{
    let mut i: usize = 0;
    while i < rules.len()
        invariant
            i <= rules@.len(),
            rules@ == old(rules)@,
            forall|j: int| 0 <= j < i ==> (#[trigger] rules@[j].state@) != rule.state@,
        decreases rules@.len() - i,
    {
        if str_eq(rules[i].state.as_str(), rule.state.as_str()) {
            let ghost before = rules@;
            let ghost iv = i as int;
            rules.set(
                i,
                InputRule {
                    state: rule.state,
                    is_dynamic: rule.is_dynamic,
                    value: rule.value,
                    record: rule.record,
                },
            );
            proof {
                let ghost newr = rules@[iv];
                assert(newr.state@ == before[iv].state@);
                assert forall|s: Seq<char>| true implies #[trigger] rule_lookup(rules@, s) == if s
                    == newr.state@ {
                    Some(rule_values(newr))
                } else {
                    rule_lookup(before, s)
                } by {
                    lemma_rule_replace(before, rules@, iv, s);
                }
            }
            return ;
        }
        i += 1;
    }
    let ghost before = rules@;
    rules.push(rule);
    proof {
        let n = before.len() as int;
        assert forall|s: Seq<char>| true implies #[trigger] rule_lookup(rules@, s) == if s
            == rules@[n].state@ {
            Some(rule_values(rules@[n]))
        } else {
            rule_lookup(before, s)
        } by {
            lemma_rule_append(before, rules@, s);
        }
    }
}

/// Replacing the first rule for a state changes only that state's lookup.
proof fn lemma_rule_replace(before: Seq<InputRule>, after: Seq<InputRule>, i: int, s: Seq<char>)
    requires
        0 <= i < before.len(),
        after == before.update(i, after[i]),
        after[i].state@ == before[i].state@,
        forall|j: int| 0 <= j < i ==> (#[trigger] before[j].state@) != before[i].state@,
    ensures
        rule_lookup(after, s) == if s == before[i].state@ {
            Some(rule_values(after[i]))
        } else {
            rule_lookup(before, s)
        },
    decreases i,
{
    if i == 0 {
        if before[0].state@ == s {
        } else {
            assert(after.skip(1) =~= before.skip(1));
        }
    } else {
        assert(after[0] == before[0]);
        if before[0].state@ == s {
        } else {
            assert(after.skip(1)[i - 1] == after[i]);
            assert(after.skip(1) =~= before.skip(1).update(i - 1, after.skip(1)[i - 1]));
            lemma_rule_replace(before.skip(1), after.skip(1), i - 1, s);
        }
    }
}

/// Appending a rule for a fresh state changes only that state's lookup.
proof fn lemma_rule_append(before: Seq<InputRule>, after: Seq<InputRule>, s: Seq<char>)
    requires
        after.len() == before.len() + 1,
        forall|j: int| 0 <= j < before.len() ==> #[trigger] after[j] == before[j],
        forall|j: int| 0 <= j < before.len() ==> (#[trigger] before[j].state@) != after[
            before.len() as int].state@,
    ensures
        rule_lookup(after, s) == if s == after[before.len() as int].state@ {
            Some(rule_values(after[before.len() as int]))
        } else {
            rule_lookup(before, s)
        },
    decreases before.len(),
{
    if before.len() == 0 {
        assert(after.skip(1) =~= Seq::<InputRule>::empty());
    } else {
        assert(after[0] == before[0]);
        if before[0].state@ == s && s != after[before.len() as int].state@ {
        } else {
            lemma_rule_append(before.skip(1), after.skip(1), s);
            assert(after.skip(1)[before.len() - 1] == after[before.len() as int]);
            assert(forall|j: int|
                0 <= j < before.len() - 1 ==> #[trigger] after.skip(1)[j] == before.skip(1)[j]);
        }
    }
}

} // verus!

verus! {

impl DeviceHandler {
    /// Builds a handler from its state-machine configuration.
    ///
    /// `prompt` lists `(state_name, patterns)` groups; `prompt_with_sys`
    /// lists `(state_name, pattern, capture_group)`; `write` lists
    /// `(state_name, (is_dynamic, value, record), patterns)`.  Prompt and
    /// sys-prompt patterns are wrapped to tolerate leading NULs and one
    /// carriage return.  State names are lowercased everywhere, and the
    /// pagination pre-state always answers a single space, unrecorded.
    #[verifier::rlimit(100)]
    pub fn new(
        prompt: Vec<(String, Vec<String>)>,
        prompt_with_sys: Vec<(String, String, String)>,
        write: Vec<(String, (bool, String, bool), Vec<String>)>,
        more_regex: Vec<String>,
        error_regex: Vec<String>,
        edges: Vec<Edge>,
        ignore_errors: Vec<String>,
        dyn_param: Vec<(String, String)>,
    ) -> (r: Result<DeviceHandler, ConnectError>)
        ensures
            r matches Err(e) ==> e is InvalidDeviceHandlerConfig,
            r is Ok <==> (regex_set_compiles(
                combined_patterns(
                    more_regex.deep_view(),
                    error_regex.deep_view(),
                    prompt@,
                    prompt_with_sys@,
                    write@,
                ),
            ) && (forall|j: int|
                0 <= j < prompt_with_sys@.len() ==> regex_compiles(
                    wrap_pattern_spec(#[trigger] (prompt_with_sys@[j]).1@),
                )) && (ignore_errors@.len() == 0 || regex_set_compiles(ignore_errors.deep_view()))),
            r matches Ok(h) ==> {
                &&& h.wf()
                &&& h.patterns_m() == combined_patterns(
                    more_regex.deep_view(),
                    error_regex.deep_view(),
                    prompt@,
                    prompt_with_sys@,
                    write@,
                )
                &&& h.pattern_states_m() == combined_states(
                    more_regex.deep_view(),
                    error_regex.deep_view(),
                    prompt@,
                    prompt_with_sys@,
                    write@,
                )
                &&& h.ignore_patterns_m() == ignore_errors.deep_view()
                &&& (forall|p: int| #[trigger] h.catch_group_m(p) == {
                    let base = more_regex@.len() + error_regex@.len() + prompt_patterns_built(
                        prompt@,
                    ).len();
                    if base <= p < base + prompt_with_sys@.len() {
                        Some((prompt_with_sys@[p - base]).2@)
                    } else {
                        None
                    }
                })
                &&& h.states_m().len() == 3 + prompt@.len() + prompt_with_sys@.len()
                    + write@.len()
                &&& h.states_m()[0] == output_name()
                &&& h.states_m()[1] == more_name()
                &&& h.states_m()[2] == error_name()
                &&& forall|i: int|
                    0 <= i < prompt@.len() ==> h.states_m()[3 + i] == lower_seq(
                        #[trigger] prompt@[i].0@,
                    )
                &&& forall|i: int|
                    0 <= i < prompt_with_sys@.len() ==> h.states_m()[3 + prompt@.len() + i]
                        == lower_seq(#[trigger] prompt_with_sys@[i].0@)
                &&& forall|i: int|
                    0 <= i < write@.len() ==> h.states_m()[3 + prompt@.len()
                        + prompt_with_sys@.len() + i] == lower_seq(#[trigger] write@[i].0@)
                &&& forall|i: int|
                    h.is_prompt_index(i) <==> 3 <= i < 3 + prompt@.len()
                        + prompt_with_sys@.len()
                &&& forall|i: int|
                    h.is_sys_prompt_index(i) <==> 3 + prompt@.len() <= i < 3 + prompt@.len()
                        + prompt_with_sys@.len()
                &&& h.edges_m().len() == edges@.len()
                &&& forall|k: int|
                    0 <= k < edges@.len() ==> (#[trigger] h.edges_m()[k].0@) == lower_seq(
                        edges@[k].0@,
                    ) && h.edges_m()[k].1@ == edges@[k].1@ && h.edges_m()[k].2@ == lower_seq(
                        edges@[k].2@,
                    ) && h.edges_m()[k].3 == edges@[k].3 && h.edges_m()[k].4 == edges@[k].4
                &&& forall|s: Seq<char>| #[trigger] rule_lookup(h.inputs_m(), s) == expected_input(
                    write@,
                    s,
                )
                &&& h.state_index_m() == 0
                &&& h.sys_m() is None
                &&& h.prompt_m() is None
                &&& h.dyn_param_m() == dyn_param@
            },
    {
        broadcast use vstd::std_specs::vec::group_vec_axioms;

        let mut all_states: Vec<String> = Vec::new();
        all_states.push("output".to_owned());
        all_states.push("more".to_owned());
        all_states.push("error".to_owned());
        proof {
            reveal_strlit("output");
            reveal_strlit("more");
            reveal_strlit("error");
            assert(all_states@[0]@ =~= output_name());
            assert(all_states@[1]@ =~= more_name());
            assert(all_states@[2]@ =~= error_name());
            lemma_lower_names();
        }

        let mut patterns: Vec<String> = Vec::new();
        let mut regex_to_state: Vec<usize> = Vec::new();
        let mut prompt_patterns: Vec<(String, String)> = Vec::new();
        let mut catch_map: Vec<CatchRule> = Vec::new();

        let mut i: usize = 0;
        while i < more_regex.len()
            invariant
                i <= more_regex@.len(),
                patterns@.len() == regex_to_state@.len(),
                forall|j: int| 0 <= j < regex_to_state@.len() ==> (
                #[trigger] regex_to_state@[j] as int) < 3,
                patterns.deep_view() == more_regex.deep_view().take(i as int),
                states_of(regex_to_state@) == rep_states(1, i as int),
            decreases more_regex@.len() - i,
        {
            proof {
                assert(patterns.deep_view().len() == patterns@.len());
                assert(states_of(regex_to_state@).len()
                    == regex_to_state@.len());
            }
            let ghost pdeep0 = patterns.deep_view();
            let ghost pmap0 = states_of(regex_to_state@);
            patterns.push(more_regex[i].clone());
            regex_to_state.push(1);
            proof {
                assert(patterns@.len() == i + 1);
                assert forall|j: int| 0 <= j < i implies patterns.deep_view()[j] == pdeep0[j] by {}
                assert(patterns.deep_view()[i as int] == more_regex.deep_view()[i as int]);
                assert(patterns.deep_view() =~~= more_regex.deep_view().take(i + 1));
                assert forall|j: int|
                    0 <= j < i implies states_of(regex_to_state@)[j]
                    == pmap0[j] by {}
                assert(states_of(regex_to_state@)[i as int] == 1int);
                assert(forall|j: int|
                    0 <= j < i + 1 ==> #[trigger] rep_states(1, i + 1)[j] == 1int);
                assert(forall|j: int| 0 <= j < i ==> #[trigger] rep_states(1, i as int)[j] == 1int);
                assert(rep_states(1, i + 1).len() == i + 1);
                assert(rep_states(1, i as int).len() == i as int);
                assert forall|j: int|
                    0 <= j < i + 1 implies states_of(regex_to_state@)[j] == rep_states(
                    1,
                    i + 1,
                )[j] by {
                    assert(rep_states(1, i + 1)[j] == 1int);
                    if j < i {
                        assert(states_of(regex_to_state@)[j] == pmap0[j]);
                        assert(pmap0[j] == rep_states(1, i as int)[j]);
                        assert(rep_states(1, i as int)[j] == 1int);
                    } else {
                        assert(states_of(regex_to_state@)[j] == 1int);
                    }
                }
                assert(states_of(regex_to_state@) =~= rep_states(1, i + 1));
            }
            i += 1;
        }
        proof {
            assert(more_regex.deep_view().take(more_regex@.len() as int) =~~= more_regex.deep_view());
        }
        let mut i: usize = 0;
        while i < error_regex.len()
            invariant
                i <= error_regex@.len(),
                patterns@.len() == regex_to_state@.len(),
                forall|j: int| 0 <= j < regex_to_state@.len() ==> (
                #[trigger] regex_to_state@[j] as int) < 3,
                patterns.deep_view() == more_regex.deep_view() + error_regex.deep_view().take(
                    i as int,
                ),
                states_of(regex_to_state@) == rep_states(
                    1,
                    more_regex@.len() as int,
                ) + rep_states(2, i as int),
            decreases error_regex@.len() - i,
        {
            proof {
                assert(patterns.deep_view().len() == patterns@.len());
                assert(states_of(regex_to_state@).len() == regex_to_state@.len());
                assert(rep_states(1, more_regex@.len() as int).len() == more_regex@.len());
                assert(rep_states(2, i as int).len() == i as int);
            }
            let ghost pdeep0 = patterns.deep_view();
            let ghost pmap0 = states_of(regex_to_state@);
            let ghost ml = more_regex@.len() as int;
            patterns.push(error_regex[i].clone());
            regex_to_state.push(2);
            proof {
                let nd = patterns.deep_view();
                let nm = states_of(regex_to_state@);
                assert(nd.len() == ml + i + 1);
                assert(rep_states(2, i + 1).len() == i + 1);
                assert forall|j: int| 0 <= j < ml + i + 1 implies nd[j] == (more_regex.deep_view()
                    + error_regex.deep_view().take(i + 1))[j] by {
                    if j < ml + i {
                        assert(nd[j] == pdeep0[j]);
                        assert(pdeep0[j] == (more_regex.deep_view()
                            + error_regex.deep_view().take(i as int))[j]);
                    } else {
                        assert(nd[j] == error_regex.deep_view()[i as int]);
                    }
                }
                assert(nd =~~= more_regex.deep_view() + error_regex.deep_view().take(i + 1));
                assert forall|j: int| 0 <= j < ml + i + 1 implies nm[j] == (rep_states(1, ml)
                    + rep_states(2, i + 1))[j] by {
                    assert((rep_states(1, ml) + rep_states(2, i + 1))[j] == (if j < ml {
                        1int
                    } else {
                        2int
                    }));
                    if j < ml + i {
                        assert(nm[j] == pmap0[j]);
                        assert(pmap0[j] == (rep_states(1, ml) + rep_states(2, i as int))[j]);
                        assert((rep_states(1, ml) + rep_states(2, i as int))[j] == (if j < ml {
                            1int
                        } else {
                            2int
                        }));
                    } else {
                        assert(nm[j] == 2int);
                    }
                }
                assert(nm =~= rep_states(1, ml) + rep_states(2, i + 1));
            }
            i += 1;
        }
        proof {
            assert(error_regex.deep_view().take(error_regex@.len() as int)
                =~~= error_regex.deep_view());
        }
        let ghost pre2p = more_regex.deep_view() + error_regex.deep_view();
        let ghost pre2m = rep_states(1, more_regex@.len() as int) + rep_states(
            2,
            error_regex@.len() as int,
        );

        let ghost pre_states = all_states@;
        let mut gi: usize = 0;
        while gi < prompt.len()
            invariant
                gi <= prompt@.len(),
                all_states@.len() == 3 + gi,
                all_states@.subrange(0, 3) =~= pre_states,
                forall|j: int|
                    0 <= j < gi ==> all_states@[3 + j]@ == lower_seq(#[trigger] prompt@[j].0@),
                forall|j: int|
                    0 <= j < all_states@.len() ==> lower_seq(#[trigger] all_states@[j]@)
                        == all_states@[j]@,
                patterns@.len() == regex_to_state@.len(),
                forall|j: int| 0 <= j < regex_to_state@.len() ==> (
                #[trigger] regex_to_state@[j] as int) < all_states@.len(),
                catch_map@.len() == 0,
                patterns.deep_view() == pre2p + prompt_patterns_built(prompt@.take(gi as int)),
                states_of(regex_to_state@) == pre2m + prompt_states_built(
                    prompt@.take(gi as int),
                    3,
                ),
            decreases prompt@.len() - gi,
        {
            let state_index = all_states.len();
            let lowered = ascii_lower(prompt[gi].0.as_str());
            proof {
                lemma_lower_idempotent(prompt@[gi as int].0@);
            }
            all_states.push(lowered);
            let ghost group_pats = wrapped_all(prompt@[gi as int].1.deep_view());
            let mut pi: usize = 0;
            while pi < prompt[gi].1.len()
                invariant
                    gi < prompt@.len(),
                    pi <= prompt@[gi as int].1@.len(),
                    state_index as int == all_states@.len() - 1,
                    state_index as int == 3 + gi,
                    patterns@.len() == regex_to_state@.len(),
                    forall|j: int| 0 <= j < regex_to_state@.len() ==> (
                    #[trigger] regex_to_state@[j] as int) < all_states@.len(),
                    catch_map@.len() == 0,
                    group_pats == wrapped_all(prompt@[gi as int].1.deep_view()),
                    patterns.deep_view() == pre2p + prompt_patterns_built(prompt@.take(gi as int))
                        + group_pats.take(pi as int),
                    states_of(regex_to_state@) == pre2m
                        + prompt_states_built(prompt@.take(gi as int), 3) + rep_states(
                        3 + gi as int,
                        pi as int,
                    ),
                decreases prompt@[gi as int].1@.len() - pi,
            {
                proof {
                    assert(patterns.deep_view().len() == patterns@.len());
                    assert(states_of(regex_to_state@).len() == regex_to_state@.len());
                    assert(rep_states(3 + gi as int, pi as int).len() == pi as int);
                }
                let ghost pdeep0 = patterns.deep_view();
                let ghost pmap0 = states_of(regex_to_state@);
                let ghost dpre = pre2p + prompt_patterns_built(prompt@.take(gi as int));
                let ghost mpre = pre2m + prompt_states_built(prompt@.take(gi as int), 3);
                let wrapped = wrap_pattern(prompt[gi].1[pi].as_str());
                prompt_patterns.push((all_states[state_index].clone(), wrapped.clone()));
                patterns.push(wrapped);
                regex_to_state.push(state_index);
                proof {
                    let nd = patterns.deep_view();
                    let nm = states_of(regex_to_state@);
                    assert(group_pats[pi as int] == wrap_pattern_spec(
                        (prompt@[gi as int].1.deep_view())[pi as int],
                    ));
                    assert(nd.len() == dpre.len() + pi + 1);
                    assert(rep_states(3 + gi as int, pi + 1).len() == pi + 1);
                    assert forall|j: int| 0 <= j < nd.len() implies nd[j] == (dpre
                        + group_pats.take(pi + 1))[j] by {
                        if j < dpre.len() + pi {
                            assert(nd[j] == pdeep0[j]);
                            assert(pdeep0[j] == (dpre + group_pats.take(pi as int))[j]);
                        } else {
                            assert(nd[j] == wrapped@);
                            assert(wrapped@ == group_pats[pi as int]);
                        }
                    }
                    assert(nd =~~= dpre + group_pats.take(pi + 1));
                    assert forall|j: int| 0 <= j < nm.len() implies nm[j] == (mpre + rep_states(
                        3 + gi as int,
                        pi + 1,
                    ))[j] by {
                        if j < mpre.len() + pi {
                            assert(nm[j] == pmap0[j]);
                            assert(pmap0[j] == (mpre + rep_states(3 + gi as int, pi as int))[j]);
                            if j >= mpre.len() {
                                assert(rep_states(3 + gi as int, pi as int)[j - mpre.len()]
                                    == 3 + gi as int);
                                assert(rep_states(3 + gi as int, pi + 1)[j - mpre.len()]
                                    == 3 + gi as int);
                            }
                        } else {
                            assert(nm[j] == state_index as int);
                            assert(rep_states(3 + gi as int, pi + 1)[j - mpre.len()]
                                == 3 + gi as int);
                        }
                    }
                    assert(nm =~= mpre + rep_states(3 + gi as int, pi + 1));
                }
                pi += 1;
            }
            proof {
                assert(group_pats.take(group_pats.len() as int) =~~= group_pats);
                assert(prompt@.take(gi + 1).drop_last() =~= prompt@.take(gi as int));
                assert(prompt@.take(gi + 1).last() == prompt@[gi as int]);
                assert(prompt_patterns_built(prompt@.take(gi + 1)) =~~= prompt_patterns_built(
                    prompt@.take(gi as int),
                ) + group_pats);
                assert(patterns.deep_view() =~~= pre2p + prompt_patterns_built(
                    prompt@.take(gi + 1),
                ));
                assert(rep_states(3 + gi as int, group_pats.len() as int) =~= rep_states(
                    3 + prompt@.take(gi + 1).len() - 1,
                    prompt@.take(gi + 1).last().1@.len() as int,
                ));
                assert(prompt_states_built(prompt@.take(gi + 1), 3) =~= prompt_states_built(
                    prompt@.take(gi as int),
                    3,
                ) + rep_states(3 + gi as int, group_pats.len() as int));
                assert(states_of(regex_to_state@) =~= pre2m
                    + prompt_states_built(prompt@.take(gi + 1), 3));
            }
            gi += 1;
        }
        proof {
            assert(prompt@.take(prompt@.len() as int) =~= prompt@);
        }

        let sys_start = all_states.len();
        let ghost states_after_prompt = all_states@;
        let ghost base = patterns@.len() as int;
        let mut gi: usize = 0;
        while gi < prompt_with_sys.len()
            invariant
                gi <= prompt_with_sys@.len(),
                sys_start as int == states_after_prompt.len(),
                sys_start as int == 3 + prompt@.len(),
                all_states@.len() == states_after_prompt.len() + gi,
                all_states@.subrange(0, states_after_prompt.len() as int) =~= states_after_prompt,
                forall|j: int|
                    0 <= j < gi ==> all_states@[states_after_prompt.len() + j]@ == lower_seq(
                        #[trigger] prompt_with_sys@[j].0@,
                    ),
                forall|j: int|
                    0 <= j < all_states@.len() ==> lower_seq(#[trigger] all_states@[j]@)
                        == all_states@[j]@,
                patterns@.len() == regex_to_state@.len(),
                forall|j: int| 0 <= j < regex_to_state@.len() ==> (
                #[trigger] regex_to_state@[j] as int) < all_states@.len(),
                forall|j: int|
                    0 <= j < catch_map@.len() ==> (
                    #[trigger] catch_map@[j].pattern_index as int) < patterns@.len()
                        && regex_pattern(catch_map@[j].re) == patterns@[catch_map@[
                        j].pattern_index as int]@,
                base == pre2p.len() + prompt_patterns_built(prompt@).len(),
                patterns.deep_view() == pre2p + prompt_patterns_built(prompt@)
                    + sys_patterns_built(prompt_with_sys@.take(gi as int)),
                states_of(regex_to_state@) == pre2m + prompt_states_built(
                    prompt@,
                    3,
                ) + Seq::new(gi as nat, |j: int| 3 + prompt@.len() + j),
                catch_map@.len() == gi,
                forall|j: int|
                    0 <= j < gi ==> (#[trigger] catch_map@[j].pattern_index as int) == base + j
                        && catch_map@[j].group@ == (prompt_with_sys@[j]).2@,
                forall|j: int|
                    0 <= j < gi ==> regex_compiles(
                        wrap_pattern_spec(#[trigger] (prompt_with_sys@[j]).1@),
                    ),
            decreases prompt_with_sys@.len() - gi,
        {
            let state_index = all_states.len();
            let lowered = ascii_lower(prompt_with_sys[gi].0.as_str());
            proof {
                lemma_lower_idempotent(prompt_with_sys@[gi as int].0@);
            }
            all_states.push(lowered);
            let wrapped = wrap_pattern(prompt_with_sys[gi].1.as_str());
            let re = match regex_new(wrapped.as_str()) {
                Ok(re) => re,
                Err(msg) => {
                    proof {
                        assert(!regex_compiles(wrap_pattern_spec(
                            (prompt_with_sys@[gi as int]).1@,
                        )));
                    }
                    return Err(
                        ConnectError::InvalidDeviceHandlerConfig(
                            str_concat("invalid prompt_with_sys regex: ", msg.as_str()),
                        ),
                    );
                },
            };
            catch_map.push(
                CatchRule {
                    pattern_index: patterns.len(),
                    re,
                    group: prompt_with_sys[gi].2.clone(),
                },
            );
            proof {
                assert(patterns.deep_view().len() == patterns@.len());
                assert(states_of(regex_to_state@).len() == regex_to_state@.len());
            }
            let ghost pdeep0 = patterns.deep_view();
            let ghost pmap0 = states_of(regex_to_state@);
            let ghost dpre = pre2p + prompt_patterns_built(prompt@);
            let ghost mpre = pre2m + prompt_states_built(prompt@, 3);
            prompt_patterns.push((all_states[state_index].clone(), wrapped.clone()));
            patterns.push(wrapped);
            regex_to_state.push(state_index);
            proof {
                let nd = patterns.deep_view();
                let nm = states_of(regex_to_state@);
                assert(sys_patterns_built(prompt_with_sys@.take(gi + 1))
                    =~~= sys_patterns_built(prompt_with_sys@.take(gi as int)) + seq![
                    wrap_pattern_spec((prompt_with_sys@[gi as int]).1@),
                ]);
                assert(nd.len() == dpre.len() + gi + 1);
                assert forall|j: int| 0 <= j < nd.len() implies nd[j] == (dpre
                    + sys_patterns_built(prompt_with_sys@.take(gi + 1)))[j] by {
                    if j < dpre.len() + gi {
                        assert(nd[j] == pdeep0[j]);
                        assert(pdeep0[j] == (dpre + sys_patterns_built(
                            prompt_with_sys@.take(gi as int),
                        ))[j]);
                        if j >= dpre.len() {
                            assert(sys_patterns_built(prompt_with_sys@.take(gi as int))[j
                                - dpre.len()] == sys_patterns_built(
                                prompt_with_sys@.take(gi + 1),
                            )[j - dpre.len()]);
                        }
                    } else {
                        assert(nd[j] == wrapped@);
                        assert(sys_patterns_built(prompt_with_sys@.take(gi + 1))[gi as int]
                            == wrap_pattern_spec((prompt_with_sys@[gi as int]).1@));
                    }
                }
                assert(nd =~~= dpre + sys_patterns_built(prompt_with_sys@.take(gi + 1)));
                assert forall|j: int| 0 <= j < nm.len() implies nm[j] == (mpre + Seq::new(
                    (gi + 1) as nat,
                    |jj: int| 3 + prompt@.len() + jj,
                ))[j] by {
                    if j < mpre.len() + gi {
                        assert(nm[j] == pmap0[j]);
                        assert(pmap0[j] == (mpre + Seq::new(
                            gi as nat,
                            |jj: int| 3 + prompt@.len() + jj,
                        ))[j]);
                        if j >= mpre.len() {
                            assert(Seq::new(gi as nat, |jj: int| 3 + prompt@.len() + jj)[j
                                - mpre.len()] == 3 + prompt@.len() + (j - mpre.len()));
                            assert(Seq::new((gi + 1) as nat, |jj: int| 3 + prompt@.len() + jj)[j
                                - mpre.len()] == 3 + prompt@.len() + (j - mpre.len()));
                        }
                    } else {
                        assert(nm[j] == state_index as int);
                        assert(Seq::new((gi + 1) as nat, |jj: int| 3 + prompt@.len() + jj)[
                            gi as int] == 3 + prompt@.len() + gi);
                    }
                }
                assert(nm =~= mpre + Seq::new((gi + 1) as nat, |jj: int| 3 + prompt@.len() + jj));
            }
            gi += 1;
        }
        proof {
            assert(prompt_with_sys@.take(prompt_with_sys@.len() as int) =~= prompt_with_sys@);
            assert(sys_patterns_built(prompt_with_sys@.take(prompt_with_sys@.len() as int))
                =~~= sys_patterns_built(prompt_with_sys@));
        }

        let prompt_end = all_states.len();
        let ghost states_after_sys = all_states@;

        let mut input_map: Vec<InputRule> = Vec::new();
        let mut gi: usize = 0;
        while gi < write.len()
            invariant
                gi <= write@.len(),
                prompt_end as int == states_after_sys.len(),
                all_states@.len() == states_after_sys.len() + gi,
                all_states@.subrange(0, states_after_sys.len() as int) =~= states_after_sys,
                forall|j: int|
                    0 <= j < gi ==> all_states@[states_after_sys.len() + j]@ == lower_seq(
                        #[trigger] write@[j].0@,
                    ),
                forall|j: int|
                    0 <= j < all_states@.len() ==> lower_seq(#[trigger] all_states@[j]@)
                        == all_states@[j]@,
                patterns@.len() == regex_to_state@.len(),
                forall|j: int| 0 <= j < regex_to_state@.len() ==> (
                #[trigger] regex_to_state@[j] as int) < all_states@.len(),
                forall|j: int|
                    0 <= j < catch_map@.len() ==> (
                    #[trigger] catch_map@[j].pattern_index as int) < patterns@.len()
                        && regex_pattern(catch_map@[j].re) == patterns@[catch_map@[
                        j].pattern_index as int]@,
                forall|s: Seq<char>| #[trigger] rule_lookup(input_map@, s) == expected_write_input(
                    write@.take(gi as int),
                    s,
                ),
                states_after_sys.len() == 3 + prompt@.len() + prompt_with_sys@.len(),
                patterns.deep_view() == pre2p + prompt_patterns_built(prompt@)
                    + sys_patterns_built(prompt_with_sys@) + write_patterns_built(
                    write@.take(gi as int),
                ),
                states_of(regex_to_state@) == pre2m + prompt_states_built(
                    prompt@,
                    3,
                ) + Seq::new(prompt_with_sys@.len(), |j: int| 3 + prompt@.len() + j)
                    + write_states_built(
                    write@.take(gi as int),
                    3 + prompt@.len() as int + prompt_with_sys@.len() as int,
                ),
            decreases write@.len() - gi,
        {
            let state_index = all_states.len();
            let lowered = ascii_lower(write[gi].0.as_str());
            proof {
                lemma_lower_idempotent(write@[gi as int].0@);
            }
            all_states.push(lowered.clone());
            let ghost wgroup = write@[gi as int].2.deep_view();
            let mut pi: usize = 0;
            while pi < write[gi].2.len()
                invariant
                    gi < write@.len(),
                    pi <= write@[gi as int].2@.len(),
                    state_index as int == all_states@.len() - 1,
                    state_index as int == 3 + prompt@.len() + prompt_with_sys@.len() + gi,
                    patterns@.len() == regex_to_state@.len(),
                    forall|j: int| 0 <= j < regex_to_state@.len() ==> (
                    #[trigger] regex_to_state@[j] as int) < all_states@.len(),
                    forall|j: int|
                        0 <= j < catch_map@.len() ==> (
                        #[trigger] catch_map@[j].pattern_index as int) < patterns@.len()
                            && regex_pattern(catch_map@[j].re) == patterns@[catch_map@[
                            j].pattern_index as int]@,
                    wgroup == write@[gi as int].2.deep_view(),
                    patterns.deep_view() == pre2p + prompt_patterns_built(prompt@)
                        + sys_patterns_built(prompt_with_sys@) + write_patterns_built(
                        write@.take(gi as int),
                    ) + wgroup.take(pi as int),
                    states_of(regex_to_state@) == pre2m
                        + prompt_states_built(prompt@, 3) + Seq::new(
                        prompt_with_sys@.len(),
                        |j: int| 3 + prompt@.len() + j,
                    ) + write_states_built(
                        write@.take(gi as int),
                        3 + prompt@.len() as int + prompt_with_sys@.len() as int,
                    ) + rep_states(state_index as int, pi as int),
                decreases write@[gi as int].2@.len() - pi,
            {
                proof {
                    assert(patterns.deep_view().len() == patterns@.len());
                    assert(states_of(regex_to_state@).len() == regex_to_state@.len());
                    assert(rep_states(state_index as int, pi as int).len() == pi as int);
                }
                let ghost pdeep0 = patterns.deep_view();
                let ghost pmap0 = states_of(regex_to_state@);
                let ghost dpre = pre2p + prompt_patterns_built(prompt@) + sys_patterns_built(
                    prompt_with_sys@,
                ) + write_patterns_built(write@.take(gi as int));
                let ghost mpre = pre2m + prompt_states_built(prompt@, 3) + Seq::new(
                    prompt_with_sys@.len(),
                    |j: int| 3 + prompt@.len() + j,
                ) + write_states_built(
                    write@.take(gi as int),
                    3 + prompt@.len() as int + prompt_with_sys@.len() as int,
                );
                patterns.push(write[gi].2[pi].clone());
                regex_to_state.push(state_index);
                proof {
                    let nd = patterns.deep_view();
                    let nm = states_of(regex_to_state@);
                    assert(nd.len() == dpre.len() + pi + 1);
                    assert(rep_states(state_index as int, pi + 1).len() == pi + 1);
                    assert forall|j: int| 0 <= j < nd.len() implies nd[j] == (dpre + wgroup.take(
                        pi + 1,
                    ))[j] by {
                        if j < dpre.len() + pi {
                            assert(nd[j] == pdeep0[j]);
                            assert(pdeep0[j] == (dpre + wgroup.take(pi as int))[j]);
                        } else {
                            assert(nd[j] == wgroup[pi as int]);
                        }
                    }
                    assert(nd =~~= dpre + wgroup.take(pi + 1));
                    assert forall|j: int| 0 <= j < nm.len() implies nm[j] == (mpre + rep_states(
                        state_index as int,
                        pi + 1,
                    ))[j] by {
                        if j < mpre.len() + pi {
                            assert(nm[j] == pmap0[j]);
                            assert(pmap0[j] == (mpre + rep_states(
                                state_index as int,
                                pi as int,
                            ))[j]);
                            if j >= mpre.len() {
                                assert(rep_states(state_index as int, pi as int)[j - mpre.len()]
                                    == state_index as int);
                                assert(rep_states(state_index as int, pi + 1)[j - mpre.len()]
                                    == state_index as int);
                            }
                        } else {
                            assert(nm[j] == state_index as int);
                            assert(rep_states(state_index as int, pi + 1)[j - mpre.len()]
                                == state_index as int);
                        }
                    }
                    assert(nm =~= mpre + rep_states(state_index as int, pi + 1));
                }
                pi += 1;
            }
            proof {
                assert(wgroup.take(wgroup.len() as int) =~~= wgroup);
                assert(write@.take(gi + 1).drop_last() =~= write@.take(gi as int));
                assert(write@.take(gi + 1).last() == write@[gi as int]);
                assert(write_patterns_built(write@.take(gi + 1)) =~~= write_patterns_built(
                    write@.take(gi as int),
                ) + wgroup);
                assert(patterns.deep_view() =~~= pre2p + prompt_patterns_built(prompt@)
                    + sys_patterns_built(prompt_with_sys@) + write_patterns_built(
                    write@.take(gi + 1),
                ));
                assert(rep_states(state_index as int, wgroup.len() as int) =~= rep_states(
                    3 + prompt@.len() as int + prompt_with_sys@.len() as int + write@.take(
                        gi + 1,
                    ).len() - 1,
                    write@.take(gi + 1).last().2@.len() as int,
                ));
                assert(write_states_built(
                    write@.take(gi + 1),
                    3 + prompt@.len() as int + prompt_with_sys@.len() as int,
                ) =~= write_states_built(
                    write@.take(gi as int),
                    3 + prompt@.len() as int + prompt_with_sys@.len() as int,
                ) + rep_states(state_index as int, wgroup.len() as int));
                assert(states_of(regex_to_state@) =~= pre2m
                    + prompt_states_built(prompt@, 3) + Seq::new(
                    prompt_with_sys@.len(),
                    |j: int| 3 + prompt@.len() + j,
                ) + write_states_built(
                    write@.take(gi + 1),
                    3 + prompt@.len() as int + prompt_with_sys@.len() as int,
                ));
            }
            input_put(
                &mut input_map,
                InputRule {
                    state: lowered,
                    is_dynamic: write[gi].1.0,
                    value: write[gi].1.1.clone(),
                    record: write[gi].1.2,
                },
            );
            proof {
                assert(write@.take(gi + 1).drop_last() =~= write@.take(gi as int));
                assert(write@.take(gi + 1).last() == write@[gi as int]);
            }
            gi += 1;
        }
        proof {
            assert(write@.take(write@.len() as int) =~= write@);
        }
        let ghost combined = combined_patterns(
            more_regex.deep_view(),
            error_regex.deep_view(),
            prompt@,
            prompt_with_sys@,
            write@,
        );
        proof {
            assert(patterns.deep_view() =~~= combined);
            assert(states_of(regex_to_state@) =~= combined_states(
                more_regex.deep_view(),
                error_regex.deep_view(),
                prompt@,
                prompt_with_sys@,
                write@,
            ));
        }

        input_put(
            &mut input_map,
            InputRule {
                state: "more".to_owned(),
                is_dynamic: false,
                value: " ".to_owned(),
                record: false,
            },
        );
        proof {
            reveal_strlit("more");
            reveal_strlit(" ");
            assert("more"@ =~= more_name());
            assert(" "@ =~= seq![' ']);
        }

        let all_regex = match regex_set_new(&patterns) {
            Ok(s) => s,
            Err(msg) => {
                proof {
                    assert(!regex_set_compiles(combined));
                }
                return Err(
                    ConnectError::InvalidDeviceHandlerConfig(
                        str_concat("failed to build state regex set: ", msg.as_str()),
                    ),
                );
            },
        };

        let ignore_regex = if ignore_errors.len() == 0 {
            None
        } else {
            match regex_set_new(&ignore_errors) {
                Ok(s) => Some(s),
                Err(msg) => {
                    proof {
                        assert(ignore_errors@.len() > 0);
                        assert(!regex_set_compiles(ignore_errors.deep_view()));
                    }
                    return Err(
                        ConnectError::InvalidDeviceHandlerConfig(
                            str_concat("invalid ignore_errors regex set: ", msg.as_str()),
                        ),
                    );
                },
            }
        };

        let mut norm_edges: Vec<Edge> = Vec::new();
        let mut k: usize = 0;
        while k < edges.len()
            invariant
                k <= edges@.len(),
                norm_edges@.len() == k,
                forall|j: int|
                    0 <= j < k ==> (#[trigger] norm_edges@[j].0@) == lower_seq(edges@[j].0@)
                        && norm_edges@[j].1@ == edges@[j].1@ && norm_edges@[j].2@ == lower_seq(
                        edges@[j].2@,
                    ) && norm_edges@[j].3 == edges@[j].3 && norm_edges@[j].4 == edges@[j].4,
            decreases edges@.len() - k,
        {
            let e = &edges[k];
            norm_edges.push(
                (ascii_lower(e.0.as_str()), e.1.clone(), ascii_lower(e.2.as_str()), e.3, e.4),
            );
            k += 1;
        }
        proof {
            assert forall|j: int| 0 <= j < norm_edges@.len() implies lower_seq(
                #[trigger] norm_edges@[j].0@,
            ) == norm_edges@[j].0@ && lower_seq(norm_edges@[j].2@) == norm_edges@[j].2@ by {
                lemma_lower_idempotent(edges@[j].0@);
                lemma_lower_idempotent(edges@[j].2@);
            }
        }

        let h = DeviceHandler {
            current_state_index: 0,
            all_states,
            all_patterns: patterns,
            all_regex,
            regex_to_state,
            prompt_index: (3, prompt_end - 1),
            sys_prompt_index: (sys_start, prompt_end - 1),
            input_map,
            edges: norm_edges,
            ignore_patterns: ignore_errors,
            ignore_regex,
            dyn_param,
            catch_map,
            sys: None,
            current_prompt: None,
            prompt_patterns,
        };
        proof {
            assert(h.wf());
            assert(h.patterns_m() == combined);
            assert(h.pattern_states_m() == combined_states(
                more_regex.deep_view(),
                error_regex.deep_view(),
                prompt@,
                prompt_with_sys@,
                write@,
            ));
            assert(h.ignore_patterns_m() == ignore_errors.deep_view());
            assert forall|p: int| #[trigger] h.catch_group_m(p) == {
                let cbase = more_regex@.len() + error_regex@.len() + prompt_patterns_built(
                    prompt@,
                ).len();
                if cbase <= p < cbase + prompt_with_sys@.len() {
                    Some((prompt_with_sys@[p - cbase]).2@)
                } else {
                    None
                }
            } by {
                let cbase = more_regex@.len() + error_regex@.len() + prompt_patterns_built(
                    prompt@,
                ).len() as int;
                assert(base == cbase);
                assert(h.catch_map@.len() == prompt_with_sys@.len());
                lemma_catch_lookup(h.catch_map@, base, p);
                if cbase <= p < cbase + prompt_with_sys@.len() {
                    assert(h.catch_map@[p - base].pattern_index as int == base + (p - base));
                    assert(h.catch_map@[p - base].group@ == (prompt_with_sys@[p - base]).2@);
                }
            }
            assert(h.states_m().len() == 3 + prompt@.len() + prompt_with_sys@.len()
                + write@.len());
            assert(h.states_m()[0] == output_name());
            assert(forall|i: int|
                0 <= i < prompt@.len() ==> h.states_m()[3 + i] == lower_seq(
                    #[trigger] prompt@[i].0@,
                ));
            assert(forall|i: int|
                0 <= i < prompt_with_sys@.len() ==> h.states_m()[3 + prompt@.len() + i]
                    == lower_seq(#[trigger] prompt_with_sys@[i].0@));
            assert(forall|i: int|
                0 <= i < write@.len() ==> h.states_m()[3 + prompt@.len()
                    + prompt_with_sys@.len() + i] == lower_seq(#[trigger] write@[i].0@));
            assert(forall|i: int|
                h.is_prompt_index(i) <==> 3 <= i < 3 + prompt@.len() + prompt_with_sys@.len());
            assert(forall|i: int|
                h.is_sys_prompt_index(i) <==> 3 + prompt@.len() <= i < 3 + prompt@.len()
                    + prompt_with_sys@.len());
            assert(h.edges_m().len() == edges@.len());
            assert(forall|s: Seq<char>| #[trigger] rule_lookup(h.inputs_m(), s) == expected_input(
                write@,
                s,
            ));
            assert(h.state_index_m() == 0);
            assert(h.dyn_param_m() == dyn_param@);
        }
        Ok(h)
    }
}

/// The three pre-state names are lowercase.
proof fn lemma_lower_names()
    ensures
        lower_seq(output_name()) == output_name(),
        lower_seq(more_name()) == more_name(),
        lower_seq(error_name()) == error_name(),
{
    assert(lower_seq(output_name()) =~= output_name());
    assert(lower_seq(more_name()) =~= more_name());
    assert(lower_seq(error_name()) =~= error_name());
}

} // verus!

verus! {

/// Two string vectors hold the same texts.
pub fn strings_equal(a: &Vec<String>, b: &Vec<String>) -> (r: bool)
    ensures
        r == (a.deep_view() == b.deep_view()),
{
    if a.len() != b.len() {
        proof {
            assert(a.deep_view().len() != b.deep_view().len());
        }
        return false;
    }
    let mut i: usize = 0;
    while i < a.len()
        invariant
            i <= a@.len(),
            a@.len() == b@.len(),
            forall|j: int| 0 <= j < i ==> (#[trigger] a.deep_view()[j]) == b.deep_view()[j],
        decreases a@.len() - i,
    {
        if !str_eq(a[i].as_str(), b[i].as_str()) {
            proof {
                assert(a.deep_view()[i as int] != b.deep_view()[i as int]);
            }
            return false;
        }
        i += 1;
    }
    proof {
        assert(a.deep_view() =~= b.deep_view());
    }
    true
}

impl DeviceHandler {
    /// The configuration fields two equivalent handlers must share,
    /// gathered as one spec-level tuple.
    pub closed spec fn config_m(&self) -> (
        Seq<Seq<char>>,
        Seq<(Seq<char>, Seq<char>, Seq<char>, bool, bool)>,
        Seq<(Seq<char>, bool, Seq<char>, bool)>,
        (int, int),
        (int, int),
        Seq<int>,
        Seq<(int, Seq<char>)>,
    ) {
        (
            self.all_states.deep_view(),
            self.edges@.map_values(|e: Edge| (e.0@, e.1@, e.2@, e.3, e.4)),
            self.input_map@.map_values(
                |r: InputRule| (r.state@, r.is_dynamic, r.value@, r.record),
            ),
            (self.prompt_index.0 as int, self.prompt_index.1 as int),
            (self.sys_prompt_index.0 as int, self.sys_prompt_index.1 as int),
            states_of(self.regex_to_state@),
            self.catch_map@.map_values(|c: CatchRule| (c.pattern_index as int, c.group@)),
        )
    }

    /// Handler equivalence: equality of the configuration, with runtime
    /// fields (current state, captured sys, prompt, dynamic parameters)
    /// left out, and compiled patterns compared through the index map.
    pub open spec fn equiv_m(a: &DeviceHandler, b: &DeviceHandler) -> bool {
        a.config_m() == b.config_m()
    }

    /// Checks whether two handlers are interchangeable for connection
    /// reuse: same states, edges, input rules, index ranges, pattern-state
    /// mapping and capture groups; runtime fields are ignored.
    pub fn is_equivalent(&self, other: &DeviceHandler) -> (r: bool)
        ensures
            r == Self::equiv_m(self, other),
    {
        if !strings_equal(&self.all_states, &other.all_states) {
            return false;
        }
        if self.edges.len() != other.edges.len() {
            proof {
                assert(self.config_m().1.len() != other.config_m().1.len());
            }
            return false;
        }
        let mut i: usize = 0;
        while i < self.edges.len()
            invariant
                i <= self.edges@.len(),
                self.edges@.len() == other.edges@.len(),
                forall|j: int| 0 <= j < i ==> (#[trigger] self.config_m().1[j]) == other.config_m().1[j],
            decreases self.edges@.len() - i,
        {
            let e = &self.edges[i];
            let o = &other.edges[i];
            if !str_eq(e.0.as_str(), o.0.as_str()) || !str_eq(e.1.as_str(), o.1.as_str())
                || !str_eq(e.2.as_str(), o.2.as_str()) || e.3 != o.3 || e.4 != o.4 {
                proof {
                    assert(self.config_m().1[i as int] != other.config_m().1[i as int]);
                }
                return false;
            }
            proof {
                assert(self.config_m().1[i as int] == other.config_m().1[i as int]);
            }
            i += 1;
        }
        if self.input_map.len() != other.input_map.len() {
            proof {
                assert(self.config_m().2.len() != other.config_m().2.len());
            }
            return false;
        }
        let mut i: usize = 0;
        while i < self.input_map.len()
            invariant
                i <= self.input_map@.len(),
                self.input_map@.len() == other.input_map@.len(),
                forall|j: int| 0 <= j < i ==> (#[trigger] self.config_m().2[j]) == other.config_m().2[j],
            decreases self.input_map@.len() - i,
        {
            let e = &self.input_map[i];
            let o = &other.input_map[i];
            if !str_eq(e.state.as_str(), o.state.as_str()) || e.is_dynamic != o.is_dynamic
                || !str_eq(e.value.as_str(), o.value.as_str()) || e.record != o.record {
                proof {
                    assert(self.config_m().2[i as int] != other.config_m().2[i as int]);
                }
                return false;
            }
            proof {
                assert(self.config_m().2[i as int] == other.config_m().2[i as int]);
            }
            i += 1;
        }
        if self.prompt_index.0 != other.prompt_index.0 || self.prompt_index.1
            != other.prompt_index.1 {
            return false;
        }
        if self.sys_prompt_index.0 != other.sys_prompt_index.0 || self.sys_prompt_index.1
            != other.sys_prompt_index.1 {
            return false;
        }
        if self.regex_to_state.len() != other.regex_to_state.len() {
            proof {
                assert(self.config_m().5.len() != other.config_m().5.len());
            }
            return false;
        }
        let mut i: usize = 0;
        while i < self.regex_to_state.len()
            invariant
                i <= self.regex_to_state@.len(),
                self.regex_to_state@.len() == other.regex_to_state@.len(),
                forall|j: int| 0 <= j < i ==> (#[trigger] self.config_m().5[j]) == other.config_m().5[j],
            decreases self.regex_to_state@.len() - i,
        {
            if self.regex_to_state[i] != other.regex_to_state[i] {
                proof {
                    assert(self.config_m().5[i as int] != other.config_m().5[i as int]);
                }
                return false;
            }
            proof {
                assert(self.config_m().5[i as int] == other.config_m().5[i as int]);
            }
            i += 1;
        }
        if self.catch_map.len() != other.catch_map.len() {
            proof {
                assert(self.config_m().6.len() != other.config_m().6.len());
            }
            return false;
        }
        let mut i: usize = 0;
        while i < self.catch_map.len()
            invariant
                i <= self.catch_map@.len(),
                self.catch_map@.len() == other.catch_map@.len(),
                forall|j: int| 0 <= j < i ==> (#[trigger] self.config_m().6[j]) == other.config_m().6[j],
            decreases self.catch_map@.len() - i,
        {
            let e = &self.catch_map[i];
            let o = &other.catch_map[i];
            if e.pattern_index != o.pattern_index || !str_eq(e.group.as_str(), o.group.as_str()) {
                proof {
                    assert(self.config_m().6[i as int] != other.config_m().6[i as int]);
                }
                return false;
            }
            proof {
                assert(self.config_m().6[i as int] == other.config_m().6[i as int]);
            }
            i += 1;
        }
        proof {
            assert(self.config_m().1 =~= other.config_m().1);
            assert(self.config_m().2 =~= other.config_m().2);
            assert(self.config_m().5 =~= other.config_m().5);
            assert(self.config_m().6 =~= other.config_m().6);
        }
        true
    }
}

/// Handler equivalence is reflexive.
pub proof fn lemma_equiv_reflexive(a: &DeviceHandler)
    ensures
        DeviceHandler::equiv_m(a, a),
{
}

/// Handler equivalence is symmetric.
pub proof fn lemma_equiv_symmetric(a: &DeviceHandler, b: &DeviceHandler)
    requires
        DeviceHandler::equiv_m(a, b),
    ensures
        DeviceHandler::equiv_m(b, a),
{
}

/// Handler equivalence is transitive.
pub proof fn lemma_equiv_transitive(a: &DeviceHandler, b: &DeviceHandler, c: &DeviceHandler)
    requires
        DeviceHandler::equiv_m(a, b),
        DeviceHandler::equiv_m(b, c),
    ensures
        DeviceHandler::equiv_m(a, c),
{
}

/// Handler equivalence ignores the runtime fields: handlers whose
/// configurations agree are equivalent regardless of current state,
/// captured sys token, stored prompt, or dynamic parameters.
pub proof fn lemma_equiv_runtime_insensitive(
    a: &DeviceHandler,
    b: &DeviceHandler,
    a2: &DeviceHandler,
    b2: &DeviceHandler,
)
    requires
        a.config_m() == a2.config_m(),
        b.config_m() == b2.config_m(),
    ensures
        DeviceHandler::equiv_m(a, b) == DeviceHandler::equiv_m(a2, b2),
{
}

} // verus!

verus! {

/// The view of an optional sys token argument.
pub open spec fn opt_str_view(s: Option<&String>) -> Option<Seq<char>> {
    match s {
        Some(v) => Some(v@),
        None => None,
    }
}

/// Appending one edge to a name walk keeps it a walk.
proof fn lemma_name_walk_extend(edges: Seq<Edge>, a: Seq<char>, b: Seq<char>, ws: Seq<int>, k: int)
    requires
        is_name_walk(edges, a, b, ws),
        0 <= k < edges.len(),
        edges[k].0@ == b,
    ensures
        is_name_walk(edges, a, edges[k].2@, ws.push(k)),
    decreases ws.len(),
{
    if ws.len() == 0 {
        assert(ws.push(k)[0] == k);
        assert(ws.push(k).skip(1) =~= Seq::<int>::empty());
        assert(is_name_walk(edges, edges[k].2@, edges[k].2@, ws.push(k).skip(1)));
    } else {
        lemma_name_walk_extend(edges, edges[ws[0]].2@, b, ws.skip(1), k);
        assert(ws.push(k)[0] == ws[0]);
        assert(ws.push(k).skip(1) =~= ws.skip(1).push(k));
        assert(is_name_walk(edges, edges[ws[0]].2@, edges[k].2@, ws.push(k).skip(1)));
    }
}

/// Two name walks compose.
proof fn lemma_name_walk_append(
    edges: Seq<Edge>,
    a: Seq<char>,
    m: Seq<char>,
    b: Seq<char>,
    ws1: Seq<int>,
    ws2: Seq<int>,
)
    requires
        is_name_walk(edges, a, m, ws1),
        is_name_walk(edges, m, b, ws2),
    ensures
        is_name_walk(edges, a, b, ws1 + ws2),
    decreases ws1.len(),
{
    if ws1.len() == 0 {
        assert(ws1 + ws2 =~= ws2);
    } else {
        lemma_name_walk_append(edges, edges[ws1[0]].2@, m, b, ws1.skip(1), ws2);
        assert((ws1 + ws2)[0] == ws1[0]);
        assert((ws1 + ws2).skip(1) =~= ws1.skip(1) + ws2);
    }
}

/// A non-empty name walk ends with an edge into its destination.
proof fn lemma_name_walk_last(edges: Seq<Edge>, a: Seq<char>, b: Seq<char>, ws: Seq<int>)
    requires
        is_name_walk(edges, a, b, ws),
        ws.len() > 0,
    ensures
        0 <= ws.last() < edges.len(),
        edges[ws.last()].2@ == b,
    decreases ws.len(),
{
    if ws.len() == 1 {
        assert(is_name_walk(edges, edges[ws[0]].2@, b, ws.skip(1)));
        assert(ws.skip(1).len() == 0);
        assert(edges[ws[0]].2@ == b);
        assert(ws.last() == ws[0]);
    } else {
        assert(ws.skip(1).len() > 0);
        lemma_name_walk_last(edges, edges[ws[0]].2@, b, ws.skip(1));
        assert(ws.skip(1).last() == ws.last());
    }
}

/// A name-to-index table: distinct entries aligned with the index edges.
pub open spec fn table_aligned(
    table: Seq<Seq<char>>,
    edges: Seq<Edge>,
    iedges: Seq<(usize, usize)>,
) -> bool {
    &&& iedges.len() == edges.len()
    &&& forall|k: int|
        0 <= k < edges.len() ==> (#[trigger] iedges[k].0 as int) < table.len() && (
        iedges[k].1 as int) < table.len() && table[iedges[k].0 as int] == edges[k].0@ && table[
            iedges[k].1 as int] == edges[k].2@
}

/// Pairwise-distinct table entries.
pub open spec fn table_distinct(table: Seq<Seq<char>>) -> bool {
    forall|i: int, j: int| 0 <= i < j < table.len() ==> #[trigger] table[i] != #[trigger] table[j]
}

/// An index walk names a walk over the name graph.
proof fn lemma_index_walk_to_name(
    table: Seq<Seq<char>>,
    edges: Seq<Edge>,
    iedges: Seq<(usize, usize)>,
    ia: int,
    ib: int,
    ws: Seq<int>,
)
    requires
        table_aligned(table, edges, iedges),
        crate::graph::is_walk(iedges, ia, ib, ws),
        0 <= ia < table.len(),
        0 <= ib < table.len(),
    ensures
        is_name_walk(edges, table[ia], table[ib], ws),
    decreases ws.len(),
{
    if ws.len() > 0 {
        lemma_index_walk_to_name(table, edges, iedges, iedges[ws[0]].1 as int, ib, ws.skip(1));
    }
}

/// A name walk between table entries is an index walk, because the table
/// is distinct.
proof fn lemma_name_walk_to_index(
    table: Seq<Seq<char>>,
    edges: Seq<Edge>,
    iedges: Seq<(usize, usize)>,
    ia: int,
    ib: int,
    ws: Seq<int>,
)
    requires
        table_aligned(table, edges, iedges),
        table_distinct(table),
        is_name_walk(edges, table[ia], table[ib], ws),
        0 <= ia < table.len(),
        0 <= ib < table.len(),
    ensures
        crate::graph::is_walk(iedges, ia, ib, ws),
    decreases ws.len(),
{
    if ws.len() == 0 {
        assert(table[ia] == table[ib]);
        if ia != ib {
            assert(false);
        }
    } else {
        let k = ws[0];
        assert(table[iedges[k].0 as int] == edges[k].0@);
        assert(edges[k].0@ == table[ia]);
        if iedges[k].0 as int != ia {
            assert(false);
        }
        lemma_name_walk_to_index(table, edges, iedges, iedges[k].1 as int, ib, ws.skip(1));
    }
}

/// Finds `s` in the table.
fn find_in_table(table: &Vec<String>, s: &str) -> (r: Option<usize>)
    ensures
        match r {
            Some(i) => (i as int) < table@.len() && table.deep_view()[i as int] == s@,
            None => forall|j: int| 0 <= j < table@.len() ==> table.deep_view()[j] != s@,
        },
{
    let mut i: usize = 0;
    while i < table.len()
        invariant
            i <= table@.len(),
            forall|j: int| 0 <= j < i ==> table.deep_view()[j] != s@,
        decreases table@.len() - i,
    {
        if str_eq(table[i].as_str(), s) {
            proof {
                assert(table.deep_view()[i as int] == s@);
            }
            return Some(i);
        }
        proof {
            assert(table.deep_view()[i as int] == table@[i as int]@);
        }
        i += 1;
    }
    None
}

/// Finds `s` in the table, adding it if absent; keeps entries distinct and
/// the existing prefix in place.
fn table_intern(table: &mut Vec<String>, s: &str) -> (r: usize)
    requires
        table_distinct(old(table).deep_view()),
    ensures
        table_distinct(final(table)@.map_values(|v: String| v@)),
        table_distinct(final(table).deep_view()),
        final(table)@.len() >= old(table)@.len(),
        forall|j: int| 0 <= j < old(table)@.len() ==> final(table).deep_view()[j] == old(
            table,
        ).deep_view()[j],
        (r as int) < final(table)@.len(),
        final(table).deep_view()[r as int] == s@,
    {
    match find_in_table(table, s) {
        Some(i) => {
            proof {
                assert(table.deep_view() =~~= table@.map_values(|v: String| v@));
            }
            i
        },
        None => {
            let i = table.len();
            table.push(s.to_owned());
            proof {
                assert(forall|j: int|
                    0 <= j < i ==> final(table).deep_view()[j] == old(table).deep_view()[j]);
                assert(final(table).deep_view()[i as int] == s@);
                assert(table_distinct(final(table).deep_view()));
                assert(table.deep_view() =~~= table@.map_values(|v: String| v@));
            }
            i
        },
    }
}

} // verus!

verus! {

impl DeviceHandler {
    /// Whether planning for `sysv` must first escape the current
    /// sys-scoped context.
    pub open spec fn needs_switch(&self, sysv: Option<Seq<char>>) -> bool {
        &&& self.sys_m() is Some
        &&& sysv is Some
        &&& self.sys_m() != sysv
    }

    /// Renders the command of edge `k` for the given sys token.
    fn render_edge_command(&self, k: usize, sys: Option<&String>) -> (r: String)
        requires
            self.wf(),
            (k as int) < self.edges@.len(),
        ensures
            r@ == edge_command(self.edges_m()[k as int], opt_str_view(sys)),
    {
        let e = &self.edges[k];
        if e.4 {
            match sys {
                Some(v) => replace_marker_exec(e.1.as_str(), v.as_str()),
                None => String::new(),
            }
        } else {
            e.1.clone()
        }
    }

    /// Walks `is_exit` edges from the current state until a state outside
    /// the sys-prompt range is reached.  For each state the last exit edge
    /// declared for it decides, as in a map built by insertion.  Returns
    /// `None` when the current state is not sys-scoped; otherwise the
    /// landing state, the rendered commands, and the walk itself.
    fn exit_until_no_sys(&self, sys: Option<&String>) -> (r: Result<
        Option<(String, Vec<(String, String)>, Ghost<Seq<int>>)>,
        ConnectError,
    >)
        requires
            self.wf(),
        ensures
            match r {
                Ok(opt) => match opt {
                    Some(out) => is_name_walk(
                        self.edges_m(),
                        self.current_state_m(),
                        out.0@,
                        out.2@,
                    ) && plan_renders_walk(self.edges_m(), out.2@, out.1@, opt_str_view(sys))
                        && out.1@.len() > 0,
                    None => !self.is_sys_prompt_index(self.state_index_m()),
                },
                Err(e) => match e {
                    ConnectError::NoExitCommandError(s) => !exists|k: int|
                        0 <= k < self.edges_m().len() && (#[trigger] self.edges_m()[k]).3
                            && self.edges_m()[k].0@ == s@,
                    ConnectError::TargetStateNotExistError => exists|k: int|
                        0 <= k < self.edges_m().len() && (#[trigger] self.edges_m()[k]).3
                            && !self.declared(self.edges_m()[k].2@),
                    ConnectError::InternalServerError(_) => true,
                    _ => false,
                },
            },
    {
        if !(self.sys_prompt_index.0 <= self.current_state_index && self.current_state_index
            <= self.sys_prompt_index.1) {
            return Ok(None);
        }

        // the effective exit edge per state: the last declared one wins
        let mut emap: Vec<usize> = Vec::new();
        let mut k: usize = 0;
        while k < self.edges.len()
            invariant
                self.wf(),
                k <= self.edges@.len(),
                forall|j: int|
                    0 <= j < emap@.len() ==> (#[trigger] emap@[j] as int) < self.edges@.len()
                        && self.edges@[emap@[j] as int].3,
                forall|kk: int|
                    0 <= kk < k && (#[trigger] self.edges@[kk]).3 ==> exists|j: int|
                        0 <= j < emap@.len() && self.edges@[#[trigger] emap@[j] as int].0@
                            == self.edges@[kk].0@,
            decreases self.edges@.len() - k,
        {
            let ghost emap0 = emap@;
            if self.edges[k].3 {
                let mut j: usize = 0;
                let mut replaced = false;
                while j < emap.len() && !replaced
                    invariant
                        self.wf(),
                        k < self.edges@.len(),
                        self.edges@[k as int].3,
                        j <= emap@.len(),
                        emap@.len() == emap0.len(),
                        forall|m: int|
                            0 <= m < emap@.len() ==> (#[trigger] emap@[m] as int)
                                < self.edges@.len() && self.edges@[emap@[m] as int].3,
                        forall|m: int|
                            0 <= m < emap@.len() ==> self.edges@[(#[trigger] emap@[m]) as int].0@
                                == self.edges@[emap0[m] as int].0@,
                        replaced ==> exists|m: int| 0 <= m < emap@.len() && (#[trigger] emap@[m])
                            == k,
                    decreases emap@.len() - j, (if replaced { 0int } else { 1int }),
                {
                    if str_eq(
                        self.edges[emap[j]].0.as_str(),
                        self.edges[k].0.as_str(),
                    ) {
                        emap.set(j, k);
                        replaced = true;
                        proof {
                            assert(emap@[j as int] == k);
                        }
                    } else {
                        j += 1;
                    }
                }
                if !replaced {
                    emap.push(k);
                }
                proof {
                    assert forall|kk: int|
                        0 <= kk < k + 1 && (#[trigger] self.edges@[kk]).3 implies exists|m: int|
                        0 <= m < emap@.len() && self.edges@[(#[trigger] emap@[m]) as int].0@
                            == self.edges@[kk].0@ by {
                        if kk < k {
                            let m0 = choose|m0: int|
                                0 <= m0 < emap0.len() && self.edges@[
                                    #[trigger] emap0[m0] as int].0@ == self.edges@[kk].0@;
                            assert(self.edges@[(emap@[m0]) as int].0@ == self.edges@[kk].0@);
                        } else if replaced {
                            let m0 = choose|m0: int|
                                0 <= m0 < emap@.len() && (#[trigger] emap@[m0]) == k;
                            assert(self.edges@[(emap@[m0]) as int].0@ == self.edges@[k as int].0@);
                        } else {
                            assert(emap@[emap@.len() - 1] == k);
                            assert(self.edges@[(emap@[emap@.len() - 1]) as int].0@
                                == self.edges@[k as int].0@);
                        }
                    }
                }
            }
            k += 1;
        }

        let mut current: String = self.all_states[self.current_state_index].clone();
        let ghost start_name = self.current_state_m();
        let mut path: Vec<(String, String)> = Vec::new();
        let ghost mut ws: Seq<int> = Seq::empty();
        proof {
            assert(is_name_walk(self.edges_m(), start_name, current@, ws));
        }
        let mut steps: usize = 0;
        let bound = emap.len();
        while steps <= bound
            invariant
                self.wf(),
                bound == emap@.len(),
                forall|j: int|
                    0 <= j < emap@.len() ==> (#[trigger] emap@[j] as int) < self.edges@.len()
                        && self.edges@[emap@[j] as int].3,
                forall|kk: int|
                    0 <= kk < self.edges@.len() && (#[trigger] self.edges@[kk]).3 ==> exists|
                    j: int|
                        0 <= j < emap@.len() && self.edges@[#[trigger] emap@[j] as int].0@
                            == self.edges@[kk].0@,
                is_name_walk(self.edges_m(), start_name, current@, ws),
                plan_renders_walk(self.edges_m(), ws, path@, opt_str_view(sys)),
                path@.len() == ws.len(),
                start_name == self.current_state_m(),
            decreases bound + 1 - steps,
        {
            // look up the exit edge for the current state
            let mut j: usize = 0;
            let mut found: Option<usize> = None;
            while j < emap.len() && found.is_none()
                invariant
                    self.wf(),
                    j <= emap@.len(),
                    forall|m: int|
                        0 <= m < emap@.len() ==> (#[trigger] emap@[m] as int)
                            < self.edges@.len() && self.edges@[emap@[m] as int].3,
                    match found {
                        Some(kk) => (kk as int) < self.edges@.len() && self.edges@[kk as int].0@
                            == current@ && self.edges@[kk as int].3,
                        None => forall|m: int|
                            0 <= m < j ==> self.edges@[(#[trigger] emap@[m]) as int].0@
                                != current@,
                    },
                decreases emap@.len() - j, (if found is Some { 0int } else { 1int }),
            {
                if str_eq(self.edges[emap[j]].0.as_str(), current.as_str()) {
                    found = Some(emap[j]);
                } else {
                    j += 1;
                }
            }
            let k = match found {
                Some(k) => k,
                None => {
                    proof {
                        assert forall|kk: int|
                            !(0 <= kk < self.edges_m().len() && (
                            #[trigger] self.edges_m()[kk]).3 && self.edges_m()[kk].0@
                                == current@) by {
                            if 0 <= kk < self.edges@.len() && self.edges@[kk].3
                                && self.edges@[kk].0@ == current@ {
                                let j = choose|j: int|
                                    0 <= j < emap@.len() && self.edges@[
                                        #[trigger] emap@[j] as int].0@ == self.edges@[kk].0@;
                                assert(self.edges@[emap@[j] as int].0@ != current@);
                            }
                        }
                    }
                    return Err(ConnectError::NoExitCommandError(current));
                },
            };
            let cmd = self.render_edge_command(k, sys);
            let end = self.edges[k].2.clone();
            path.push((cmd, end.clone()));
            proof {
                lemma_name_walk_extend(self.edges_m(), start_name, current@, ws, k as int);
                ws = ws.push(k as int);
            }
            current = end;
            // locate the landing state to see whether it is still sys-scoped
            match find_in_table(&self.all_states, current.as_str()) {
                Some(idx) => {
                    if !(self.sys_prompt_index.0 <= idx && idx <= self.sys_prompt_index.1) {
                        return Ok(Some((current, path, Ghost(ws))));
                    }
                },
                None => {
                    proof {
                        assert(self.edges_m()[k as int].3);
                        assert(current@ == self.edges_m()[k as int].2@);
                        assert(!self.declared(current@)) by {
                            if self.declared(current@) {
                                let ii = choose|ii: int|
                                    0 <= ii < self.states_m().len() && #[trigger] self.states_m()[
                                        ii] == current@;
                                assert(self.all_states.deep_view()[ii] == current@);
                            }
                        }
                    }
                    return Err(ConnectError::TargetStateNotExistError);
                },
            }
            if steps == bound {
                return Err(
                    ConnectError::InternalServerError(
                        "sys exit path does not leave the sys context".to_owned(),
                    ),
                );
            }
            steps += 1;
        }
        Err(
            ConnectError::InternalServerError(
                "sys exit path does not leave the sys context".to_owned(),
            ),
        )
    }

    /// Plans the commands that move the machine to `state`.
    ///
    /// When a different sys token is requested, exit edges are walked
    /// first; then a breadth-first search over the transition graph finds
    /// a path to the target.  Each planned entry carries the rendered
    /// command and the state it lands in; the whole plan is a walk over
    /// the declared edges from the current state to the target, and an
    /// empty plan means the machine is already there.
    pub fn trans_state_write(&self, state: &str, sys: Option<&String>) -> (r: Result<
        Vec<(String, String)>,
        ConnectError,
    >)
        requires
            self.wf(),
        ensures
            r matches Ok(plan) ==> exists|ws: Seq<int>|
                is_name_walk(self.edges_m(), self.current_state_m(), state@, ws)
                    && plan_renders_walk(self.edges_m(), ws, plan@, opt_str_view(sys)),
            !self.needs_switch(opt_str_view(sys)) ==> (r is Ok <==> (self.current_state_m()
                == state@ || name_reach(self.edges_m(), self.current_state_m(), state@))),
            r matches Err(e) ==> (e is UnreachableState || e is NoExitCommandError
                || e is TargetStateNotExistError || e is InternalServerError),
            r matches Err(ConnectError::UnreachableState(t)) ==> t@ == state@,
            !self.needs_switch(opt_str_view(sys)) && r is Err ==> (r matches Err(e)
                && e is UnreachableState),
            !self.needs_switch(opt_str_view(sys)) && self.current_state_m() == state@ ==> (
            r matches Ok(plan) && plan@.len() == 0),
    {
        let mut plan: Vec<(String, String)> = Vec::new();
        let mut start_node: String = self.all_states[self.current_state_index].clone();
        let ghost mut ws_acc: Seq<int> = Seq::empty();
        proof {
            assert(is_name_walk(self.edges_m(), self.current_state_m(), start_node@, ws_acc));
        }

        let switching = match (&self.sys, sys) {
            (Some(cs), Some(ts)) => !str_eq(cs.as_str(), ts.as_str()),
            _ => false,
        };
        proof {
            assert(switching == self.needs_switch(opt_str_view(sys)));
        }
        if switching {
            match self.exit_until_no_sys(sys) {
                Ok(Some((node, exit_path, ghost_ws))) => {
                    proof {
                        lemma_name_walk_append(
                            self.edges_m(),
                            self.current_state_m(),
                            self.current_state_m(),
                            node@,
                            ws_acc,
                            ghost_ws@,
                        );
                        assert(ws_acc + ghost_ws@ =~= ghost_ws@);
                        ws_acc = ghost_ws@;
                    }
                    start_node = node;
                    plan = exit_path;
                },
                Ok(None) => {},
                Err(e) => {
                    return Err(e);
                },
            }
        }

        if str_eq(start_node.as_str(), state) {
            return Ok(plan);
        }

        // index graph over the state names seen in the edges
        let mut table: Vec<String> = Vec::new();
        let istart = table_intern(&mut table, start_node.as_str());
        let mut iedges: Vec<(usize, usize)> = Vec::new();
        let mut k: usize = 0;
        while k < self.edges.len()
            invariant
                self.wf(),
                k <= self.edges@.len(),
                iedges@.len() == k,
                table_distinct(table.deep_view()),
                (istart as int) < table@.len(),
                table.deep_view()[istart as int] == start_node@,
                table_aligned(table.deep_view(), self.edges@.subrange(0, k as int), iedges@),
                crate::graph::edges_bounded(iedges@, table@.len() as int),
            decreases self.edges@.len() - k,
        {
            let ifrom = table_intern(&mut table, self.edges[k].0.as_str());
            let ito = table_intern(&mut table, self.edges[k].2.as_str());
            iedges.push((ifrom, ito));
            proof {
                assert(self.edges@.subrange(0, k + 1).drop_last() =~= self.edges@.subrange(
                    0,
                    k as int,
                ));
                assert forall|m: int|
                    0 <= m < k + 1 implies (#[trigger] iedges@[m].0 as int) < table@.len() && (
                    iedges@[m].1 as int) < table@.len() && table.deep_view()[iedges@[m].0 as int]
                    == self.edges@.subrange(0, k + 1)[m].0@ && table.deep_view()[
                    iedges@[m].1 as int] == self.edges@.subrange(0, k + 1)[m].2@ by {
                    assert(self.edges@.subrange(0, k + 1)[m] == self.edges@[m]);
                }
            }
            k += 1;
        }
        proof {
            assert(self.edges@.subrange(0, self.edges@.len() as int) =~= self.edges@);
            assert(table_aligned(table.deep_view(), self.edges@, iedges@));
        }

        let itarget = match find_in_table(&table, state) {
            Some(i) => i,
            None => {
                proof {
                    // no edge lands in the target, so no walk reaches it
                    assert forall|ws: Seq<int>|
                        !is_name_walk(self.edges_m(), start_node@, state@, ws) by {
                        if is_name_walk(self.edges_m(), start_node@, state@, ws) {
                            if ws.len() == 0 {
                                assert(start_node@ == state@);
                                assert(table.deep_view()[istart as int] == state@);
                                assert(false);
                            } else {
                                lemma_name_walk_last(
                                    self.edges_m(),
                                    start_node@,
                                    state@,
                                    ws,
                                );
                                let k0 = ws.last();
                                assert(0 <= k0 < self.edges@.len());
                                assert(iedges@.len() == self.edges@.len());
                                let iv = iedges@[k0].1 as int;
                                assert((iedges@[k0].0 as int) < table.deep_view().len());
                                assert(iv < table.deep_view().len());
                                assert(table.deep_view()[iv] == self.edges@[k0].2@);
                                assert(self.edges@[k0].2@ == state@);
                                assert(table.deep_view()[iv] == state@);
                                assert(iv < table@.len());
                                assert(false);
                            }
                        }
                    }
                }
                return Err(ConnectError::UnreachableState(state.to_owned()));
            },
        };

        let mut seeds: Vec<usize> = Vec::new();
        seeds.push(istart);
        let walks = crate::graph::bfs_walks(table.len(), &iedges, &seeds);
        let found = match &walks[itarget] {
            Some(w) => crate::graph::clone_usizes(w),
            None => {
                proof {
                    // BFS is complete: no index walk means no name walk
                    assert forall|ws: Seq<int>|
                        !is_name_walk(self.edges_m(), start_node@, state@, ws) by {
                        if is_name_walk(self.edges_m(), start_node@, state@, ws) {
                            lemma_name_walk_to_index(
                                table.deep_view(),
                                self.edges@,
                                iedges@,
                                istart as int,
                                itarget as int,
                                ws,
                            );
                            assert(crate::graph::is_walk(
                                iedges@,
                                istart as int,
                                itarget as int,
                                ws,
                            ));
                            assert(seeds@[0] == istart);
                            assert(crate::graph::reach_from_any(
                                iedges@,
                                seeds@,
                                itarget as int,
                            ));
                            assert(false);
                        }
                    }
                }
                return Err(ConnectError::UnreachableState(state.to_owned()));
            },
        };
        let ghost fws = found@.map_values(|e: usize| e as int);
        proof {
            let kk = choose|kk: int|
                0 <= kk < seeds@.len() && crate::graph::is_walk(
                    iedges@,
                    seeds@[kk] as int,
                    itarget as int,
                    walks@[itarget as int]->0@.map_values(|e: usize| e as int),
                );
            assert(seeds@[kk] == istart);
            lemma_index_walk_to_name(
                table.deep_view(),
                self.edges@,
                iedges@,
                istart as int,
                itarget as int,
                fws,
            );
            assert(is_name_walk(self.edges_m(), start_node@, state@, fws));
            crate::graph::lemma_walk_bounds(iedges@, istart as int, itarget as int, fws);
        }

        let ghost plan_before = plan@;
        let ghost ws_before = ws_acc;
        proof {
            assert(plan_renders_walk(self.edges_m(), ws_before, plan_before, opt_str_view(sys)));
            assert(ws_before + fws.take(0) =~= ws_before);
        }
        let mut q: usize = 0;
        while q < found.len()
            invariant
                self.wf(),
                q <= found@.len(),
                fws == found@.map_values(|e: usize| e as int),
                forall|i: int| 0 <= i < fws.len() ==> 0 <= #[trigger] fws[i] < self.edges@.len(),
                plan_renders_walk(
                    self.edges_m(),
                    ws_before + fws.take(q as int),
                    plan@,
                    opt_str_view(sys),
                ),
            decreases found@.len() - q,
        {
            let k = found[q];
            proof {
                assert(fws[q as int] == found@[q as int] as int);
            }
            let cmd = self.render_edge_command(k, sys);
            let ghost prevw = ws_before + fws.take(q as int);
            let ghost prevp = plan@;
            plan.push((cmd, self.edges[k].2.clone()));
            proof {
                let neww = ws_before + fws.take(q + 1);
                assert(fws.take(q + 1) =~= fws.take(q as int).push(fws[q as int]));
                assert(neww =~= prevw.push(fws[q as int]));
                assert(plan@.len() == neww.len());
                assert forall|i: int|
                    0 <= i < neww.len() implies 0 <= #[trigger] neww[i] < self.edges_m().len()
                    && plan@[i].1@ == self.edges_m()[neww[i]].2@ && plan@[i].0@ == edge_command(
                    self.edges_m()[neww[i]],
                    opt_str_view(sys),
                ) by {
                    if i < prevw.len() {
                        assert(neww[i] == prevw[i]);
                        assert(plan@[i] == prevp[i]);
                        assert(0 <= prevw[i] < self.edges_m().len() && prevp[i].1@
                            == self.edges_m()[prevw[i]].2@ && prevp[i].0@ == edge_command(
                            self.edges_m()[prevw[i]],
                            opt_str_view(sys),
                        ));
                    } else {
                        assert(i == prevw.len());
                        assert(neww[i] == fws[q as int]);
                    }
                }
            }
            q += 1;
        }

        proof {
            assert(fws.take(found@.len() as int) =~= fws);
            lemma_name_walk_append(
                self.edges_m(),
                self.current_state_m(),
                start_node@,
                state@,
                ws_before,
                fws,
            );
            assert(plan_renders_walk(
                self.edges_m(),
                ws_before + fws,
                plan@,
                opt_str_view(sys),
            ));
        }
        Ok(plan)
    }
}

} // verus!

verus! {

/// Diagnostics summary for a device state-machine graph.
#[derive(Debug, Clone, PartialEq, Eq)]
pub struct StateMachineDiagnostics {
    /// Number of declared states.
    pub total_states: usize,
    /// States participating in transition-graph edges.
    pub graph_states: Vec<String>,
    /// Graph entry states (in-degree zero).
    pub entry_states: Vec<String>,
    /// Edge sources that are not declared states.
    pub missing_edge_sources: Vec<String>,
    /// Edge targets that are not declared states.
    pub missing_edge_targets: Vec<String>,
    /// Graph states not reachable from the entry states.
    pub unreachable_states: Vec<String>,
    /// Graph states with no outgoing edges.
    pub dead_end_states: Vec<String>,
    /// Prompt patterns shared by more than one state.
    pub duplicate_prompt_patterns: Vec<String>,
    /// States participating in duplicate prompt-pattern groups.
    pub potentially_ambiguous_prompt_states: Vec<String>,
    /// States whose outgoing transitions only loop back to themselves.
    pub self_loop_only_states: Vec<String>,
}

impl StateMachineDiagnostics {
    /// True when any structural problem was found.
    pub fn has_issues(&self) -> (r: bool)
        ensures
            r == (self.missing_edge_sources@.len() != 0 || self.missing_edge_targets@.len() != 0
                || self.unreachable_states@.len() != 0 || self.dead_end_states@.len() != 0
                || self.duplicate_prompt_patterns@.len() != 0
                || self.self_loop_only_states@.len() != 0),
    {
        self.missing_edge_sources.len() != 0 || self.missing_edge_targets.len() != 0
            || self.unreachable_states.len() != 0 || self.dead_end_states.len() != 0
            || self.duplicate_prompt_patterns.len() != 0 || self.self_loop_only_states.len() != 0
    }
}

/// Whether some element of `v` views as `s`.
pub open spec fn has_str(v: Seq<String>, s: Seq<char>) -> bool {
    exists|j: int| 0 <= j < v.len() && (#[trigger] v[j])@ == s
}

/// Lexicographic order on character sequences, by scalar value.
pub open spec fn str_lt_spec(a: Seq<char>, b: Seq<char>) -> bool
    decreases a.len(),
{
    if b.len() == 0 {
        false
    } else if a.len() == 0 {
        true
    } else if a[0] != b[0] {
        (a[0] as u32) < (b[0] as u32)
    } else {
        str_lt_spec(a.skip(1), b.skip(1))
    }
}

/// Lexicographic comparison, executable.
pub fn str_lt(a: &str, b: &str) -> (r: bool)
    ensures
        r == str_lt_spec(a@, b@),
{
    let na = a.unicode_len();
    let nb = b.unicode_len();
    let mut i: usize = 0;
    proof {
        assert(a@.skip(0) =~= a@);
        assert(b@.skip(0) =~= b@);
    }
    while i < na && i < nb
        invariant
            i <= na,
            i <= nb,
            na == a@.len(),
            nb == b@.len(),
            str_lt_spec(a@, b@) == str_lt_spec(a@.skip(i as int), b@.skip(i as int)),
        decreases na - i,
    {
        let ca = a.get_char(i);
        let cb = b.get_char(i);
        proof {
            assert(a@.skip(i as int)[0] == a@[i as int]);
            assert(b@.skip(i as int)[0] == b@[i as int]);
            assert(a@.skip(i as int).skip(1) =~= a@.skip(i + 1));
            assert(b@.skip(i as int).skip(1) =~= b@.skip(i + 1));
        }
        if ca != cb {
            return (ca as u32) < (cb as u32);
        }
        i += 1;
    }
    proof {
        if i == na {
            assert(a@.skip(i as int).len() == 0);
        } else {
            assert(b@.skip(i as int).len() == 0);
        }
    }
    na < nb
}

/// Adds `s` to the list unless an equal text is already there.
fn push_unique(v: &mut Vec<String>, s: &str)
    ensures
        forall|t: Seq<char>| #[trigger] has_str(final(v)@, t) == (has_str(old(v)@, t) || t == s@),
{
    let mut i: usize = 0;
    while i < v.len()
        invariant
            i <= v@.len(),
            v@ == old(v)@,
            forall|j: int| 0 <= j < i ==> (#[trigger] v@[j])@ != s@,
        decreases v@.len() - i,
    {
        if str_eq(v[i].as_str(), s) {
            proof {
                assert((v@[i as int])@ == s@);
                assert(has_str(v@, s@));
            }
            return ;
        }
        i += 1;
    }
    let ghost before = v@;
    v.push(s.to_owned());
    proof {
        assert((v@[before.len() as int])@ == s@);
        assert forall|t: Seq<char>| #[trigger] has_str(v@, t) == (has_str(before, t) || t == s@) by {
            if has_str(v@, t) {
                let j = choose|j: int| 0 <= j < v@.len() && (#[trigger] v@[j])@ == t;
                if j < before.len() {
                    assert((before[j])@ == t);
                    assert(has_str(before, t));
                }
            }
            if has_str(before, t) {
                let j = choose|j: int| 0 <= j < before.len() && (#[trigger] before[j])@ == t;
                assert((v@[j])@ == t);
            }
            if t == s@ {
                assert((v@[before.len() as int])@ == t);
            }
        }
    }
}

impl DeviceHandler {
    /// Whether `s` is a declared state name.
    pub open spec fn declared(&self, s: Seq<char>) -> bool {
        exists|i: int| 0 <= i < self.states_m().len() && #[trigger] self.states_m()[i] == s
    }

    /// Whether edge `k` joins two declared states.
    pub open spec fn graph_edge(&self, k: int) -> bool {
        0 <= k < self.edges_m().len() && self.declared(self.edges_m()[k].0@) && self.declared(
            self.edges_m()[k].2@,
        )
    }

    /// Every edge endpoint names a declared state.
    pub open spec fn endpoints_declared(&self) -> bool {
        forall|k: int|
            0 <= k < self.edges_m().len() ==> self.declared(
                (#[trigger] self.edges_m()[k]).0@,
            ) && self.declared(self.edges_m()[k].2@)
    }

    /// Whether `s` touches the valid transition graph.
    pub open spec fn graph_state(&self, s: Seq<char>) -> bool {
        exists|k: int| #[trigger] self.graph_edge(k) && (self.edges_m()[k].0@ == s
            || self.edges_m()[k].2@ == s)
    }

    /// Checks whether `s` names a declared state.
    fn is_declared(&self, s: &str) -> (r: bool)
        ensures
            r == self.declared(s@),
    {
        let mut i: usize = 0;
        while i < self.all_states.len()
            invariant
                i <= self.all_states@.len(),
                forall|j: int| 0 <= j < i ==> (#[trigger] self.states_m()[j]) != s@,
            decreases self.all_states@.len() - i,
        {
            if str_eq(self.all_states[i].as_str(), s) {
                proof {
                    assert(self.states_m()[i as int] == s@);
                }
                return true;
            }
            proof {
                assert(self.states_m()[i as int] == (self.all_states@[i as int])@);
            }
            i += 1;
        }
        false
    }

    /// Some edge names `s` as its source while `s` is undeclared.
    pub open spec fn missing_source(&self, s: Seq<char>) -> bool {
        !self.declared(s) && exists|k: int|
            0 <= k < self.edges_m().len() && (#[trigger] self.edges_m()[k].0@) == s
    }

    /// Some edge with a declared source names `s` as its target while `s`
    /// is undeclared.
    pub open spec fn missing_target(&self, s: Seq<char>) -> bool {
        !self.declared(s) && exists|k: int|
            0 <= k < self.edges_m().len() && self.declared(
                (#[trigger] self.edges_m()[k]).0@,
            ) && self.edges_m()[k].2@ == s
    }

    /// Some valid edge points at `s`.
    pub open spec fn has_incoming(&self, s: Seq<char>) -> bool {
        exists|k: int| #[trigger] self.graph_edge(k) && self.edges_m()[k].2@ == s
    }

    /// Some valid edge leaves `s`.
    pub open spec fn has_outgoing(&self, s: Seq<char>) -> bool {
        exists|k: int| #[trigger] self.graph_edge(k) && self.edges_m()[k].0@ == s
    }

    /// `s` has valid outgoing edges and every one of them loops back.
    pub open spec fn self_loop_only(&self, s: Seq<char>) -> bool {
        self.has_outgoing(s) && forall|k: int|
            (#[trigger] self.graph_edge(k)) && self.edges_m()[k].0@ == s ==> self.edges_m()[k].2@
                == s
    }

    /// The prompt patterns, with the state each belongs to.
    pub closed spec fn prompt_patterns_m(&self) -> Seq<(Seq<char>, Seq<char>)> {
        self.prompt_patterns@.map_values(|p: (String, String)| (p.0@, p.1@))
    }

    /// Pattern text `p` is claimed by two different prompt states.
    pub open spec fn duplicated_pattern(&self, p: Seq<char>) -> bool {
        exists|i: int, j: int|
            0 <= i < self.prompt_patterns_m().len() && 0 <= j < self.prompt_patterns_m().len() && (
            #[trigger] self.prompt_patterns_m()[i]).1 == p && (
            #[trigger] self.prompt_patterns_m()[j]).1 == p && self.prompt_patterns_m()[i].0
                != self.prompt_patterns_m()[j].0
    }

    /// The `i`-th prompt pattern is also claimed by a different state.
    pub open spec fn pattern_shared(&self, i: int) -> bool {
        exists|j: int|
            0 <= j < self.prompt_patterns_m().len() && (
            #[trigger] self.prompt_patterns_m()[j]).1 == self.prompt_patterns_m()[i].1
                && self.prompt_patterns_m()[j].0 != self.prompt_patterns_m()[i].0
    }

    /// State `s` shares some prompt pattern with a different state.
    pub open spec fn ambiguous_prompt_state(&self, s: Seq<char>) -> bool {
        exists|i: int, j: int|
            0 <= i < self.prompt_patterns_m().len() && 0 <= j < self.prompt_patterns_m().len() && (
            #[trigger] self.prompt_patterns_m()[i]).0 == s && (
            #[trigger] self.prompt_patterns_m()[j]).1 == self.prompt_patterns_m()[i].1
                && self.prompt_patterns_m()[j].0 != s
    }

    /// Analyzes the transition graph for template problems: undeclared
    /// edge endpoints, unreachable states, dead ends, duplicated prompt
    /// patterns and pure self-loops.  Every list is characterized: a name
    /// appears in it exactly when the graph exhibits the problem (the
    /// unreachable list is sound; its members are always graph states).
    /// The reachability scan starts from the entry states, or from the
    /// lexicographically-first graph state when the graph is fully cyclic.
    #[verifier::rlimit(100)]
    pub fn diagnose_state_machine(&self) -> (r: StateMachineDiagnostics)
        requires
            self.wf(),
        ensures
            r.total_states as int == self.states_m().len(),
            forall|s: Seq<char>| #[trigger] has_str(r.missing_edge_sources@, s)
                == self.missing_source(s),
            forall|s: Seq<char>| #[trigger] has_str(r.missing_edge_targets@, s)
                == self.missing_target(s),
            forall|s: Seq<char>| #[trigger] has_str(r.graph_states@, s) == self.graph_state(s),
            forall|s: Seq<char>| #[trigger] has_str(r.entry_states@, s) == (self.graph_state(s)
                && !self.has_incoming(s)),
            forall|s: Seq<char>| #[trigger] has_str(r.dead_end_states@, s) == (self.graph_state(s)
                && !self.has_outgoing(s)),
            forall|s: Seq<char>| #[trigger] has_str(r.self_loop_only_states@, s) == (
            self.graph_state(s) && self.self_loop_only(s)),
            forall|s: Seq<char>| #[trigger] has_str(r.duplicate_prompt_patterns@, s)
                == self.duplicated_pattern(s),
            forall|s: Seq<char>| #[trigger] has_str(r.potentially_ambiguous_prompt_states@, s)
                == self.ambiguous_prompt_state(s),
            forall|s: Seq<char>| #[trigger] has_str(r.unreachable_states@, s) ==> self.graph_state(
                s,
            ),
    {
        let total_states = self.all_states.len();
        let mut missing_sources: Vec<String> = Vec::new();
        let mut missing_targets: Vec<String> = Vec::new();
        let mut graph_states: Vec<String> = Vec::new();
        let mut k: usize = 0;
        while k < self.edges.len()
            invariant
                self.wf(),
                k <= self.edges@.len(),
                forall|s: Seq<char>| #[trigger] has_str(missing_sources@, s) == (!self.declared(s)
                    && exists|kk: int|
                    0 <= kk < k && (#[trigger] self.edges_m()[kk].0@) == s),
                forall|s: Seq<char>| #[trigger] has_str(missing_targets@, s) == (!self.declared(s)
                    && exists|kk: int|
                    0 <= kk < k && self.declared((#[trigger] self.edges_m()[kk]).0@)
                        && self.edges_m()[kk].2@ == s),
                forall|s: Seq<char>| #[trigger] has_str(graph_states@, s) == exists|kk: int|
                    0 <= kk < k && #[trigger] self.graph_edge(kk) && (self.edges_m()[kk].0@ == s
                        || self.edges_m()[kk].2@ == s),
            decreases self.edges@.len() - k,
        {
            let ghost ms0 = missing_sources@;
            let ghost mt0 = missing_targets@;
            let ghost gs0 = graph_states@;
            let from_ok = self.is_declared(self.edges[k].0.as_str());
            if !from_ok {
                push_unique(&mut missing_sources, self.edges[k].0.as_str());
                proof {
                    let f = self.edges_m()[k as int].0@;
                    assert forall|s: Seq<char>| #[trigger] has_str(missing_sources@, s) == (
                    !self.declared(s) && exists|kk: int|
                        0 <= kk < k + 1 && (#[trigger] self.edges_m()[kk].0@) == s) by {
                        if has_str(missing_sources@, s) {
                            if s == f {
                                assert(self.edges_m()[k as int].0@ == s);
                            }
                        }
                        if !self.declared(s) && exists|kk: int|
                            0 <= kk < k + 1 && (#[trigger] self.edges_m()[kk].0@) == s {
                            let kk = choose|kk: int|
                                0 <= kk < k + 1 && (#[trigger] self.edges_m()[kk].0@) == s;
                            if kk < k {
                                assert(has_str(ms0, s));
                            } else {
                                assert(s == f);
                            }
                        }
                    }
                }
            } else {
                let to_ok = self.is_declared(self.edges[k].2.as_str());
                if !to_ok {
                    push_unique(&mut missing_targets, self.edges[k].2.as_str());
                    proof {
                        let g = self.edges_m()[k as int].2@;
                        assert forall|s: Seq<char>| #[trigger] has_str(missing_targets@, s) == (
                        !self.declared(s) && exists|kk: int|
                            0 <= kk < k + 1 && self.declared((#[trigger] self.edges_m()[kk]).0@)
                                && self.edges_m()[kk].2@ == s) by {
                            if has_str(missing_targets@, s) && s == g {
                                assert(self.declared(self.edges_m()[k as int].0@));
                                assert(self.edges_m()[k as int].2@ == s);
                            }
                            if !self.declared(s) && exists|kk: int|
                                0 <= kk < k + 1 && self.declared(
                                    (#[trigger] self.edges_m()[kk]).0@,
                                ) && self.edges_m()[kk].2@ == s {
                                let kk = choose|kk: int|
                                    0 <= kk < k + 1 && self.declared(
                                        (#[trigger] self.edges_m()[kk]).0@,
                                    ) && self.edges_m()[kk].2@ == s;
                                if kk < k {
                                    assert(has_str(mt0, s));
                                } else {
                                    assert(s == g);
                                }
                            }
                        }
                    }
                } else {
                    proof {
                        assert(self.graph_edge(k as int));
                    }
                    push_unique(&mut graph_states, self.edges[k].0.as_str());
                    let ghost gs1 = graph_states@;
                    push_unique(&mut graph_states, self.edges[k].2.as_str());
                    proof {
                        let f = self.edges_m()[k as int].0@;
                        let g = self.edges_m()[k as int].2@;
                        assert forall|s: Seq<char>| #[trigger] has_str(graph_states@, s)
                            == exists|kk: int|
                            0 <= kk < k + 1 && #[trigger] self.graph_edge(kk) && (
                            self.edges_m()[kk].0@ == s || self.edges_m()[kk].2@ == s) by {
                            if has_str(graph_states@, s) && (s == f || s == g) {
                                assert(self.graph_edge(k as int));
                            }
                            if exists|kk: int|
                                0 <= kk < k + 1 && #[trigger] self.graph_edge(kk) && (
                                self.edges_m()[kk].0@ == s || self.edges_m()[kk].2@ == s) {
                                let kk = choose|kk: int|
                                    0 <= kk < k + 1 && #[trigger] self.graph_edge(kk) && (
                                    self.edges_m()[kk].0@ == s || self.edges_m()[kk].2@ == s);
                                if kk < k {
                                    assert(has_str(gs0, s));
                                    assert(has_str(gs1, s));
                                } else {
                                    assert(s == f || s == g);
                                }
                            }
                        }
                    }
                }
            }
            k += 1;
        }
        proof {
            assert forall|s: Seq<char>| #[trigger] has_str(graph_states@, s) == self.graph_state(
                s,
            ) by {}
        }

        // entry states: graph states no valid edge points at
        let mut entry_states: Vec<String> = Vec::new();
        let mut gi: usize = 0;
        while gi < graph_states.len()
            invariant
                self.wf(),
                gi <= graph_states@.len(),
                forall|s: Seq<char>| #[trigger] has_str(graph_states@, s) == self.graph_state(s),
                forall|s: Seq<char>| #[trigger] has_str(entry_states@, s) == (exists|j: int|
                    0 <= j < gi && (#[trigger] graph_states@[j])@ == s && !self.has_incoming(s)),
            decreases graph_states@.len() - gi,
        {
            let name = graph_states[gi].clone();
            let mut incoming = false;
            let mut kk: usize = 0;
            while kk < self.edges.len() && !incoming
                invariant
                    self.wf(),
                    kk <= self.edges@.len(),
                    name@ == (graph_states@[gi as int])@,
                    gi < graph_states@.len(),
                    incoming ==> self.has_incoming(name@),
                    !incoming ==> forall|k2: int|
                        0 <= k2 < kk && #[trigger] self.graph_edge(k2) ==> self.edges_m()[k2].2@
                            != name@,
                decreases self.edges@.len() - kk, (if incoming { 0int } else { 1int }),
            {
                if str_eq(self.edges[kk].2.as_str(), name.as_str()) {
                    let from_ok = self.is_declared(self.edges[kk].0.as_str());
                    let to_ok = self.is_declared(self.edges[kk].2.as_str());
                    if from_ok && to_ok {
                        proof {
                            assert(self.graph_edge(kk as int));
                        }
                        incoming = true;
                    } else {
                        kk += 1;
                    }
                } else {
                    kk += 1;
                }
            }
            let ghost es0 = entry_states@;
            if !incoming {
                push_unique(&mut entry_states, name.as_str());
            }
            proof {
                assert forall|s: Seq<char>| #[trigger] has_str(entry_states@, s) == (
                exists|j: int|
                    0 <= j < gi + 1 && (#[trigger] graph_states@[j])@ == s && !self.has_incoming(
                        s,
                    )) by {
                    if has_str(entry_states@, s) {
                        if !has_str(es0, s) {
                            assert((graph_states@[gi as int])@ == s);
                        }
                    }
                    if exists|j: int|
                        0 <= j < gi + 1 && (#[trigger] graph_states@[j])@ == s
                            && !self.has_incoming(s) {
                        let j = choose|j: int|
                            0 <= j < gi + 1 && (#[trigger] graph_states@[j])@ == s
                                && !self.has_incoming(s);
                        if j < gi {
                            assert(has_str(es0, s));
                        } else {
                            assert(s == name@);
                            assert(!incoming);
                        }
                    }
                }
            }
            gi += 1;
        }
        proof {
            assert forall|s: Seq<char>| #[trigger] has_str(entry_states@, s) == (self.graph_state(
                s,
            ) && !self.has_incoming(s)) by {
                if self.graph_state(s) && !self.has_incoming(s) {
                    assert(has_str(graph_states@, s));
                    let j = choose|j: int|
                        0 <= j < graph_states@.len() && (#[trigger] graph_states@[j])@ == s;
                    assert((graph_states@[j])@ == s);
                }
                if has_str(entry_states@, s) {
                    let j = choose|j: int|
                        0 <= j < graph_states@.len() && (#[trigger] graph_states@[j])@ == s
                            && !self.has_incoming(s);
                    assert(has_str(graph_states@, s));
                }
            }
        }

        // dead ends: graph states with no valid outgoing edge
        let mut dead_ends: Vec<String> = Vec::new();
        let mut gi: usize = 0;
        while gi < graph_states.len()
            invariant
                self.wf(),
                gi <= graph_states@.len(),
                forall|s: Seq<char>| #[trigger] has_str(graph_states@, s) == self.graph_state(s),
                forall|s: Seq<char>| #[trigger] has_str(dead_ends@, s) == (exists|j: int|
                    0 <= j < gi && (#[trigger] graph_states@[j])@ == s && !self.has_outgoing(s)),
            decreases graph_states@.len() - gi,
        {
            let name = graph_states[gi].clone();
            let mut outgoing = false;
            let mut kk: usize = 0;
            while kk < self.edges.len() && !outgoing
                invariant
                    self.wf(),
                    kk <= self.edges@.len(),
                    name@ == (graph_states@[gi as int])@,
                    gi < graph_states@.len(),
                    outgoing ==> self.has_outgoing(name@),
                    !outgoing ==> forall|k2: int|
                        0 <= k2 < kk && #[trigger] self.graph_edge(k2) ==> self.edges_m()[k2].0@
                            != name@,
                decreases self.edges@.len() - kk, (if outgoing { 0int } else { 1int }),
            {
                if str_eq(self.edges[kk].0.as_str(), name.as_str()) {
                    let from_ok = self.is_declared(self.edges[kk].0.as_str());
                    let to_ok = self.is_declared(self.edges[kk].2.as_str());
                    if from_ok && to_ok {
                        proof {
                            assert(self.graph_edge(kk as int));
                        }
                        outgoing = true;
                    } else {
                        kk += 1;
                    }
                } else {
                    kk += 1;
                }
            }
            let ghost de0 = dead_ends@;
            if !outgoing {
                push_unique(&mut dead_ends, name.as_str());
            }
            proof {
                assert forall|s: Seq<char>| #[trigger] has_str(dead_ends@, s) == (exists|j: int|
                    0 <= j < gi + 1 && (#[trigger] graph_states@[j])@ == s && !self.has_outgoing(
                        s,
                    )) by {
                    if has_str(dead_ends@, s) {
                        if !has_str(de0, s) {
                            assert((graph_states@[gi as int])@ == s);
                        }
                    }
                    if exists|j: int|
                        0 <= j < gi + 1 && (#[trigger] graph_states@[j])@ == s
                            && !self.has_outgoing(s) {
                        let j = choose|j: int|
                            0 <= j < gi + 1 && (#[trigger] graph_states@[j])@ == s
                                && !self.has_outgoing(s);
                        if j < gi {
                            assert(has_str(de0, s));
                        } else {
                            assert(s == name@);
                            assert(!outgoing);
                        }
                    }
                }
            }
            gi += 1;
        }
        proof {
            assert forall|s: Seq<char>| #[trigger] has_str(dead_ends@, s) == (self.graph_state(s)
                && !self.has_outgoing(s)) by {
                if self.graph_state(s) && !self.has_outgoing(s) {
                    assert(has_str(graph_states@, s));
                    let j = choose|j: int|
                        0 <= j < graph_states@.len() && (#[trigger] graph_states@[j])@ == s;
                    assert((graph_states@[j])@ == s);
                }
                if has_str(dead_ends@, s) {
                    let j = choose|j: int|
                        0 <= j < graph_states@.len() && (#[trigger] graph_states@[j])@ == s
                            && !self.has_outgoing(s);
                    assert(has_str(graph_states@, s));
                }
            }
        }

        // self-loop-only states: some outgoing edges, all pointing home
        let mut self_loops: Vec<String> = Vec::new();
        let mut gi: usize = 0;
        while gi < graph_states.len()
            invariant
                self.wf(),
                gi <= graph_states@.len(),
                forall|s: Seq<char>| #[trigger] has_str(graph_states@, s) == self.graph_state(s),
                forall|s: Seq<char>| #[trigger] has_str(self_loops@, s) == (exists|j: int|
                    0 <= j < gi && (#[trigger] graph_states@[j])@ == s && self.self_loop_only(s)),
            decreases graph_states@.len() - gi,
        {
            let name = graph_states[gi].clone();
            let mut outgoing = false;
            let mut all_self = true;
            let mut kk: usize = 0;
            while kk < self.edges.len()
                invariant
                    self.wf(),
                    kk <= self.edges@.len(),
                    name@ == (graph_states@[gi as int])@,
                    gi < graph_states@.len(),
                    outgoing == exists|k2: int|
                        0 <= k2 < kk && #[trigger] self.graph_edge(k2) && self.edges_m()[k2].0@
                            == name@,
                    all_self == forall|k2: int|
                        0 <= k2 < kk && (#[trigger] self.graph_edge(k2)) && self.edges_m()[k2].0@
                            == name@ ==> self.edges_m()[k2].2@ == name@,
                decreases self.edges@.len() - kk,
            {
                let ghost og0 = outgoing;
                let ghost as0 = all_self;
                if str_eq(self.edges[kk].0.as_str(), name.as_str()) {
                    let from_ok = self.is_declared(self.edges[kk].0.as_str());
                    let to_ok = self.is_declared(self.edges[kk].2.as_str());
                    if from_ok && to_ok {
                        proof {
                            assert(self.graph_edge(kk as int));
                        }
                        outgoing = true;
                        if !str_eq(self.edges[kk].2.as_str(), name.as_str()) {
                            all_self = false;
                        }
                    }
                }
                proof {
                    assert(outgoing == exists|k2: int|
                        0 <= k2 < kk + 1 && #[trigger] self.graph_edge(k2)
                            && self.edges_m()[k2].0@ == name@) by {
                        if outgoing && !og0 {
                            assert(self.graph_edge(kk as int) && self.edges_m()[kk as int].0@
                                == name@);
                        }
                        if exists|k2: int|
                            0 <= k2 < kk + 1 && #[trigger] self.graph_edge(k2)
                                && self.edges_m()[k2].0@ == name@ {
                            let k2 = choose|k2: int|
                                0 <= k2 < kk + 1 && #[trigger] self.graph_edge(k2)
                                    && self.edges_m()[k2].0@ == name@;
                            if k2 < kk {
                                assert(og0);
                            }
                        }
                    }
                    assert(all_self == forall|k2: int|
                        0 <= k2 < kk + 1 && (#[trigger] self.graph_edge(k2))
                            && self.edges_m()[k2].0@ == name@ ==> self.edges_m()[k2].2@
                            == name@) by {
                        if !all_self && as0 {
                            assert(self.graph_edge(kk as int) && self.edges_m()[kk as int].0@
                                == name@ && self.edges_m()[kk as int].2@ != name@);
                        }
                    }
                }
                kk += 1;
            }
            let ghost sl0 = self_loops@;
            if outgoing && all_self {
                push_unique(&mut self_loops, name.as_str());
            }
            proof {
                assert forall|s: Seq<char>| #[trigger] has_str(self_loops@, s) == (exists|j: int|
                    0 <= j < gi + 1 && (#[trigger] graph_states@[j])@ == s && self.self_loop_only(
                        s,
                    )) by {
                    if has_str(self_loops@, s) {
                        if !has_str(sl0, s) {
                            assert((graph_states@[gi as int])@ == s);
                        }
                    }
                    if exists|j: int|
                        0 <= j < gi + 1 && (#[trigger] graph_states@[j])@ == s
                            && self.self_loop_only(s) {
                        let j = choose|j: int|
                            0 <= j < gi + 1 && (#[trigger] graph_states@[j])@ == s
                                && self.self_loop_only(s);
                        if j < gi {
                            assert(has_str(sl0, s));
                        } else {
                            assert(s == name@);
                            assert(outgoing && all_self);
                        }
                    }
                }
            }
            gi += 1;
        }
        proof {
            assert forall|s: Seq<char>| #[trigger] has_str(self_loops@, s) == (self.graph_state(s)
                && self.self_loop_only(s)) by {
                if self.graph_state(s) && self.self_loop_only(s) {
                    assert(has_str(graph_states@, s));
                    let j = choose|j: int|
                        0 <= j < graph_states@.len() && (#[trigger] graph_states@[j])@ == s;
                }
            }
        }

        // reachability: from the entry states, or the lexicographically
        // first graph state when none exist
        let mut seeds: Vec<String> = Vec::new();
        if entry_states.len() > 0 {
            let mut i: usize = 0;
            while i < entry_states.len()
                invariant
                    i <= entry_states@.len(),
                decreases entry_states@.len() - i,
            {
                push_unique(&mut seeds, entry_states[i].as_str());
                i += 1;
            }
        } else if graph_states.len() > 0 {
            let mut best: usize = 0;
            let mut i: usize = 1;
            while i < graph_states.len()
                invariant
                    (best as int) < graph_states@.len(),
                    i <= graph_states@.len(),
                decreases graph_states@.len() - i,
            {
                if str_lt(graph_states[i].as_str(), graph_states[best].as_str()) {
                    best = i;
                }
                i += 1;
            }
            push_unique(&mut seeds, graph_states[best].as_str());
        }

        // index graph over the valid edges only
        let mut table: Vec<String> = Vec::new();
        let mut iedges: Vec<(usize, usize)> = Vec::new();
        let mut k: usize = 0;
        while k < self.edges.len()
            invariant
                self.wf(),
                k <= self.edges@.len(),
                table_distinct(table.deep_view()),
                crate::graph::edges_bounded(iedges@, table@.len() as int),
            decreases self.edges@.len() - k,
        {
            let from_ok = self.is_declared(self.edges[k].0.as_str());
            let to_ok = self.is_declared(self.edges[k].2.as_str());
            if from_ok && to_ok {
                let ghost tlen = table@.len();
                let ghost prev_edges = iedges@;
                let ifrom = table_intern(&mut table, self.edges[k].0.as_str());
                let ito = table_intern(&mut table, self.edges[k].2.as_str());
                iedges.push((ifrom, ito));
                proof {
                    assert((ifrom as int) < table@.len());
                    assert((ito as int) < table@.len());
                    assert(tlen <= table@.len());
                    assert forall|j: int|
                        0 <= j < iedges@.len() implies (#[trigger] iedges@[j].0 as int)
                        < table@.len() && (iedges@[j].1 as int) < table@.len() by {
                        if j < prev_edges.len() {
                            assert(iedges@[j] == prev_edges[j]);
                            assert((prev_edges[j].0 as int) < tlen);
                        }
                    }
                }
            }
            k += 1;
        }
        let mut seed_idx: Vec<usize> = Vec::new();
        let mut i: usize = 0;
        while i < seeds.len()
            invariant
                i <= seeds@.len(),
                crate::graph::nodes_bounded(seed_idx@, table@.len() as int),
            decreases seeds@.len() - i,
        {
            match find_in_table(&table, seeds[i].as_str()) {
                Some(ix) => {
                    seed_idx.push(ix);
                },
                None => {},
            }
            i += 1;
        }
        let walks = crate::graph::bfs_walks(table.len(), &iedges, &seed_idx);
        let mut unreachable: Vec<String> = Vec::new();
        let mut gi: usize = 0;
        while gi < graph_states.len()
            invariant
                self.wf(),
                gi <= graph_states@.len(),
                walks@.len() == table@.len(),
                forall|s: Seq<char>| #[trigger] has_str(graph_states@, s) == self.graph_state(s),
                forall|s: Seq<char>| #[trigger] has_str(unreachable@, s) ==> self.graph_state(s),
            decreases graph_states@.len() - gi,
        {
            let name = graph_states[gi].clone();
            let reachable = match find_in_table(&table, name.as_str()) {
                Some(ix) => walks[ix].is_some(),
                None => false,
            };
            if !reachable {
                proof {
                    assert((graph_states@[gi as int])@ == name@);
                    assert(has_str(graph_states@, name@));
                }
                push_unique(&mut unreachable, name.as_str());
            }
            gi += 1;
        }

        // duplicate prompt patterns: a pattern text claimed by two states
        let mut duplicate_patterns: Vec<String> = Vec::new();
        let mut ambiguous: Vec<String> = Vec::new();
        let mut pi: usize = 0;
        while pi < self.prompt_patterns.len()
            invariant
                self.wf(),
                pi <= self.prompt_patterns@.len(),
                forall|s: Seq<char>| #[trigger] has_str(duplicate_patterns@, s) == (exists|i: int|
                    0 <= i < pi && (#[trigger] self.prompt_patterns_m()[i]).1 == s
                        && self.pattern_shared(i)),
                forall|s: Seq<char>| #[trigger] has_str(ambiguous@, s) == (exists|i: int|
                    0 <= i < pi && (#[trigger] self.prompt_patterns_m()[i]).0 == s
                        && self.pattern_shared(i)),
            decreases self.prompt_patterns@.len() - pi,
        {
            let pat = self.prompt_patterns[pi].1.clone();
            let state = self.prompt_patterns[pi].0.clone();
            let mut shared = false;
            let mut qi: usize = 0;
            while qi < self.prompt_patterns.len()
                invariant
                    self.wf(),
                    qi <= self.prompt_patterns@.len(),
                    pi < self.prompt_patterns@.len(),
                    pat@ == self.prompt_patterns_m()[pi as int].1,
                    state@ == self.prompt_patterns_m()[pi as int].0,
                    shared == exists|j: int|
                        0 <= j < qi && (#[trigger] self.prompt_patterns_m()[j]).1 == pat@
                            && self.prompt_patterns_m()[j].0 != state@,
                decreases self.prompt_patterns@.len() - qi,
            {
                let ghost sh0 = shared;
                if str_eq(self.prompt_patterns[qi].1.as_str(), pat.as_str()) && !str_eq(
                    self.prompt_patterns[qi].0.as_str(),
                    state.as_str(),
                ) {
                    shared = true;
                }
                proof {
                    assert(shared == exists|j: int|
                        0 <= j < qi + 1 && (#[trigger] self.prompt_patterns_m()[j]).1 == pat@
                            && self.prompt_patterns_m()[j].0 != state@) by {
                        if shared && !sh0 {
                            assert((self.prompt_patterns_m()[qi as int]).1 == pat@
                                && self.prompt_patterns_m()[qi as int].0 != state@);
                        }
                        if exists|j: int|
                            0 <= j < qi + 1 && (#[trigger] self.prompt_patterns_m()[j]).1 == pat@
                                && self.prompt_patterns_m()[j].0 != state@ {
                            let j = choose|j: int|
                                0 <= j < qi + 1 && (#[trigger] self.prompt_patterns_m()[j]).1
                                    == pat@ && self.prompt_patterns_m()[j].0 != state@;
                            if j < qi {
                                assert(sh0);
                            }
                        }
                    }
                }
                qi += 1;
            }
            proof {
                assert(shared == self.pattern_shared(pi as int));
            }
            let ghost dp0 = duplicate_patterns@;
            let ghost am0 = ambiguous@;
            if shared {
                push_unique(&mut duplicate_patterns, pat.as_str());
                push_unique(&mut ambiguous, state.as_str());
            }
            proof {
                assert forall|s: Seq<char>| #[trigger] has_str(duplicate_patterns@, s) == (
                exists|i: int|
                    0 <= i < pi + 1 && (#[trigger] self.prompt_patterns_m()[i]).1 == s
                        && self.pattern_shared(i)) by {
                    if has_str(duplicate_patterns@, s) && !has_str(dp0, s) {
                        assert(s == pat@);
                        assert((self.prompt_patterns_m()[pi as int]).1 == s);
                        assert(self.pattern_shared(pi as int));
                    }
                    if exists|i: int|
                        0 <= i < pi + 1 && (#[trigger] self.prompt_patterns_m()[i]).1 == s
                            && self.pattern_shared(i) {
                        let i = choose|i: int|
                            0 <= i < pi + 1 && (#[trigger] self.prompt_patterns_m()[i]).1 == s
                                && self.pattern_shared(i);
                        if i < pi {
                            assert(has_str(dp0, s));
                        } else {
                            assert(s == pat@ && shared);
                        }
                    }
                }
                assert forall|s: Seq<char>| #[trigger] has_str(ambiguous@, s) == (exists|i: int|
                    0 <= i < pi + 1 && (#[trigger] self.prompt_patterns_m()[i]).0 == s
                        && self.pattern_shared(i)) by {
                    if has_str(ambiguous@, s) && !has_str(am0, s) {
                        assert(s == state@);
                        assert((self.prompt_patterns_m()[pi as int]).0 == s);
                        assert(self.pattern_shared(pi as int));
                    }
                    if exists|i: int|
                        0 <= i < pi + 1 && (#[trigger] self.prompt_patterns_m()[i]).0 == s
                            && self.pattern_shared(i) {
                        let i = choose|i: int|
                            0 <= i < pi + 1 && (#[trigger] self.prompt_patterns_m()[i]).0 == s
                                && self.pattern_shared(i);
                        if i < pi {
                            assert(has_str(am0, s));
                        } else {
                            assert(s == state@ && shared);
                        }
                    }
                }
            }
            pi += 1;
        }

        proof {
            assert forall|s: Seq<char>| #[trigger] has_str(duplicate_patterns@, s)
                == self.duplicated_pattern(s) by {
                if has_str(duplicate_patterns@, s) {
                    let i = choose|i: int|
                        0 <= i < self.prompt_patterns_m().len() && (
                        #[trigger] self.prompt_patterns_m()[i]).1 == s && self.pattern_shared(i);
                    let j = choose|j: int|
                        0 <= j < self.prompt_patterns_m().len() && (
                        #[trigger] self.prompt_patterns_m()[j]).1
                            == self.prompt_patterns_m()[i].1 && self.prompt_patterns_m()[j].0
                            != self.prompt_patterns_m()[i].0;
                    assert((self.prompt_patterns_m()[i]).1 == s && (
                    self.prompt_patterns_m()[j]).1 == s && self.prompt_patterns_m()[i].0
                        != self.prompt_patterns_m()[j].0);
                }
                if self.duplicated_pattern(s) {
                    let (a, b) = choose|a: int, b: int|
                        0 <= a < self.prompt_patterns_m().len() && 0 <= b
                            < self.prompt_patterns_m().len() && (
                        #[trigger] self.prompt_patterns_m()[a]).1 == s && (
                        #[trigger] self.prompt_patterns_m()[b]).1 == s
                            && self.prompt_patterns_m()[a].0 != self.prompt_patterns_m()[b].0;
                    assert(self.pattern_shared(a)) by {
                        assert((self.prompt_patterns_m()[b]).1 == self.prompt_patterns_m()[a].1
                            && self.prompt_patterns_m()[b].0 != self.prompt_patterns_m()[a].0);
                    }
                    assert((self.prompt_patterns_m()[a]).1 == s && self.pattern_shared(a));
                }
            }
            assert forall|s: Seq<char>| #[trigger] has_str(ambiguous@, s)
                == self.ambiguous_prompt_state(s) by {
                if has_str(ambiguous@, s) {
                    let i = choose|i: int|
                        0 <= i < self.prompt_patterns_m().len() && (
                        #[trigger] self.prompt_patterns_m()[i]).0 == s && self.pattern_shared(i);
                    let j = choose|j: int|
                        0 <= j < self.prompt_patterns_m().len() && (
                        #[trigger] self.prompt_patterns_m()[j]).1
                            == self.prompt_patterns_m()[i].1 && self.prompt_patterns_m()[j].0
                            != self.prompt_patterns_m()[i].0;
                    assert((self.prompt_patterns_m()[i]).0 == s && (
                    self.prompt_patterns_m()[j]).1 == self.prompt_patterns_m()[i].1
                        && self.prompt_patterns_m()[j].0 != s);
                }
                if self.ambiguous_prompt_state(s) {
                    let (a, b) = choose|a: int, b: int|
                        0 <= a < self.prompt_patterns_m().len() && 0 <= b
                            < self.prompt_patterns_m().len() && (
                        #[trigger] self.prompt_patterns_m()[a]).0 == s && (
                        #[trigger] self.prompt_patterns_m()[b]).1
                            == self.prompt_patterns_m()[a].1 && self.prompt_patterns_m()[b].0
                            != s;
                    assert(self.pattern_shared(a)) by {
                        assert((self.prompt_patterns_m()[b]).1 == self.prompt_patterns_m()[a].1
                            && self.prompt_patterns_m()[b].0 != self.prompt_patterns_m()[a].0);
                    }
                    assert((self.prompt_patterns_m()[a]).0 == s && self.pattern_shared(a));
                }
            }
        }

        StateMachineDiagnostics {
            total_states,
            graph_states,
            entry_states,
            missing_edge_sources: missing_sources,
            missing_edge_targets: missing_targets,
            unreachable_states: unreachable,
            dead_end_states: dead_ends,
            duplicate_prompt_patterns: duplicate_patterns,
            potentially_ambiguous_prompt_states: ambiguous,
            self_loop_only_states: self_loops,
        }
    }
}

} // verus!

verus! {

/// After any line is read, the machine's current state is one of the
/// declared state names, and that name is lowercase.
pub proof fn lemma_current_state_declared(h: &DeviceHandler)
    requires
        h.wf(),
    ensures
        h.states_m().contains(h.current_state_m()),
        lower_seq(h.current_state_m()) == h.current_state_m(),
{
    assert(h.states_m()[h.state_index_m()] == h.current_state_m());
}

/// Replaying a planned transition path through a pump that lands the
/// machine in each edge's declared target leaves it in the requested
/// target state: the last planned entry names the target, and an empty
/// plan means the machine already was there.
pub proof fn lemma_plan_lands_on_target(
    edges: Seq<Edge>,
    start: Seq<char>,
    target: Seq<char>,
    ws: Seq<int>,
    plan: Seq<(String, String)>,
    sys: Option<Seq<char>>,
)
    requires
        is_name_walk(edges, start, target, ws),
        plan_renders_walk(edges, ws, plan, sys),
    ensures
        plan.len() > 0 ==> (plan.last().1)@ == target,
        plan.len() == 0 ==> start == target,
{
    if plan.len() > 0 {
        lemma_name_walk_last(edges, start, target, ws);
        assert((plan[plan.len() - 1].1)@ == edges[ws[plan.len() - 1]].2@);
        assert(ws[ws.len() - 1] == ws.last());
    }
}

} // verus!
