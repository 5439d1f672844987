//! The three rewrite-rule variants.  Every rule carries a non-empty pattern.
//! A `Substitution` rule replaces an occurrence of its pattern with fixed
//! text, and producing that text is pure.  An `Input` rule replaces an
//! occurrence with the next line of the caller's input stream.  An `Output`
//! rule deletes an occurrence and asks the caller to write a fixed literal;
//! an empty literal defaults to a single line break.  The two effectful
//! productions are performed by the caller, at most once per committed
//! application; the engine only reports which effect is due.

use vstd::prelude::*;

use crate::text::NEWLINE;
use crate::text::copy_bytes;

verus! {

/// Replaces its pattern with fixed text.
pub struct Substitution {
    pub original: Vec<u8>,
    pub substitute: Vec<u8>,
}

impl Substitution {
    /// A rule replacing `original` with `substitute`.
    pub fn new(original: &Vec<u8>, substitute: &Vec<u8>) -> (r: Self)
        requires
            original@.len() > 0,
        ensures
            r.original@ == original@,
            r.substitute@ == substitute@,
    {
        Substitution { original: copy_bytes(original), substitute: copy_bytes(substitute) }
    }

    /// The pattern this rule replaces.
    pub fn original(&self) -> (r: &Vec<u8>)
        ensures
            r@ == self.original@,
    {
        &self.original
    }

    /// The replacement text.  Producing it is pure: any number of calls
    /// return the same bytes.
    pub fn substitution(&self) -> (r: &Vec<u8>)
        ensures
            r@ == self.substitute@,
    {
        &self.substitute
    }
}

/// Replaces its pattern with a line captured from the caller's input stream.
pub struct Input {
    pub original: Vec<u8>,
}

impl Input {
    /// A rule replacing `original` with one captured input line.
    pub fn new(original: &Vec<u8>) -> (r: Self)
        requires
            original@.len() > 0,
        ensures
            r.original@ == original@,
    {
        Input { original: copy_bytes(original) }
    }

    /// The pattern this rule replaces.
    pub fn original(&self) -> (r: &Vec<u8>)
        ensures
            r@ == self.original@,
    {
        &self.original
    }
}

/// Deletes an occurrence of its pattern and emits a fixed literal.
pub struct Output {
    pub original: Vec<u8>,
    pub output: Vec<u8>,
}

impl Output {
    /// A rule deleting `original` and emitting `output`; an empty `output`
    /// stands for a single line break.
    pub fn new(original: &Vec<u8>, output: &Vec<u8>) -> (r: Self)
        requires
            original@.len() > 0,
        ensures
            r.original@ == original@,
            r.output@ == emit_literal(output@),
    {
        if output.len() == 0 {
            let mut nl: Vec<u8> = Vec::new();
            nl.push(NEWLINE);
            proof {
                assert(nl@ =~= emit_literal(output@));
            }
            Output { original: copy_bytes(original), output: nl }
        } else {
            Output { original: copy_bytes(original), output: copy_bytes(output) }
        }
    }

    /// The pattern this rule replaces.
    pub fn original(&self) -> (r: &Vec<u8>)
        ensures
            r@ == self.original@,
    {
        &self.original
    }

    /// The literal the caller must write when this rule is applied.
    pub fn literal(&self) -> (r: &Vec<u8>)
        ensures
            r@ == self.output@,
    {
        &self.output
    }
}

/// What an `Output` rule emits for the raw literal `lit` of its
/// replacement spec: `lit` itself, or one line break if `lit` is empty.
pub open spec fn emit_literal(lit: Seq<u8>) -> Seq<u8> {
    if lit.len() == 0 {
        seq![NEWLINE]
    } else {
        lit
    }
}

/// A rewrite rule: exactly one of the three variants.
pub enum Rule {
    Substitution(Substitution),
    Input(Input),
    Output(Output),
}

impl Rule {
    /// The pattern this rule looks for in the state.
    pub open spec fn pattern_spec(self) -> Seq<u8> {
        match self {
            Rule::Substitution(s) => s.original@,
            Rule::Input(i) => i.original@,
            Rule::Output(o) => o.original@,
        }
    }

    /// The pattern, for callers of the engine.
    pub fn pattern(&self) -> (r: &Vec<u8>)
        ensures
            r@ == self.pattern_spec(),
    {
        match self {
            Rule::Substitution(s) => &s.original,
            Rule::Input(i) => &i.original,
            Rule::Output(o) => &o.original,
        }
    }
}

/// The mathematical model of a rule: its pattern and its replacement
/// behaviour, over byte sequences.
pub enum RuleV {
    Substitution { pattern: Seq<u8>, replacement: Seq<u8> },
    Input { pattern: Seq<u8> },
    Output { pattern: Seq<u8>, literal: Seq<u8> },
}

impl RuleV {
    /// The pattern of the modelled rule.
    pub open spec fn pattern(self) -> Seq<u8> {
        match self {
            RuleV::Substitution { pattern, .. } => pattern,
            RuleV::Input { pattern } => pattern,
            RuleV::Output { pattern, .. } => pattern,
        }
    }
}

impl View for Rule {
    type V = RuleV;

    open spec fn view(&self) -> RuleV {
        match *self {
            Rule::Substitution(ref s) => RuleV::Substitution {
                pattern: s.original@,
                replacement: s.substitute@,
            },
            Rule::Input(ref i) => RuleV::Input { pattern: i.original@ },
            Rule::Output(ref o) => RuleV::Output { pattern: o.original@, literal: o.output@ },
        }
    }
}

/// The rules of a program, as their models.
pub open spec fn rules_view(rs: Seq<Rule>) -> Seq<RuleV> {
    rs.map_values(|r: Rule| r@)
}

/// Every rule's pattern is non-empty: the invariant of a parsed rule list.
pub open spec fn rules_wf(rs: Seq<Rule>) -> bool {
    forall|k: int| 0 <= k < rs.len() ==> (#[trigger] rs[k].pattern_spec()).len() > 0
}

/// Whether every rule's pattern is non-empty, for unverified callers that
/// must check before handing a rule list to the engine.
pub fn patterns_nonempty(rs: &Vec<Rule>) -> (b: bool)
    ensures
        b == rules_wf(rs@),
{
    let mut k: usize = 0;
    while k < rs.len()
        invariant
            k <= rs@.len(),
            forall|j: int| 0 <= j < k ==> (#[trigger] rs@[j].pattern_spec()).len() > 0,
        decreases rs@.len() - k,
    {
        if rs[k].pattern().len() == 0 {
            return false;
        }
        k += 1;
    }
    true
}

} // verus!
