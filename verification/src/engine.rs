//! The nondeterministic rewrite engine.  Each pass shuffles the rules,
//! scans the shuffled order for the first rule whose pattern occurs in the
//! state, picks one of its non-overlapping occurrences at random, and
//! rewrites that span.  The engine never performs input or output itself:
//! it reports the effect that is due as a value, and for an input capture
//! it commits to the occurrence and waits for the caller's line.  A pass
//! that finds no occurrence of any pattern halts the run, which is not
//! guaranteed ever to happen: a program may rewrite forever by design.

use vstd::prelude::*;

use crate::parser::Program;
use crate::random::RandomSource;
use crate::random::rand_below;
use crate::random::shuffle_rules;
use crate::rules::Rule;
use crate::rules::rules_wf;
use crate::text::copy_bytes;
use crate::text::is_match_at;
use crate::text::lemma_scan_offsets;
use crate::text::match_offsets;
use crate::text::occurs;
use crate::text::offsets_view;
use crate::text::scan_offsets;
use crate::text::splice;
use crate::text::splice_bytes;

verus! {

broadcast use vstd::seq_lib::group_to_multiset_ensures;

/// Two sequences with the same multiset hold the same rules.
proof fn lemma_same_multiset_contains(a: Seq<Rule>, b: Seq<Rule>, ru: Rule)
    requires
        a.to_multiset() == b.to_multiset(),
        a.contains(ru),
    ensures
        b.contains(ru),
{
    assert(a.to_multiset().count(ru) > 0);
    assert(b.to_multiset().count(ru) > 0);
}

/// A permutation of a well-formed rule list is well formed.
proof fn lemma_same_multiset_wf(a: Seq<Rule>, b: Seq<Rule>)
    requires
        a.to_multiset() == b.to_multiset(),
        rules_wf(a),
    ensures
        rules_wf(b),
{
    assert forall|k: int| 0 <= k < b.len() implies (#[trigger] b[k].pattern_spec()).len() > 0 by {
        let ru = b[k];
        assert(b.contains(ru));
        lemma_same_multiset_contains(b, a, ru);
        let m = choose|m: int| 0 <= m < a.len() && a[m] == ru;
        assert(a[m].pattern_spec().len() > 0);
    }
}

/// No rule of `rules` has its pattern anywhere in `s`: the halting
/// condition of a run.
pub open spec fn no_rule_matches(rules: Seq<Rule>, s: Seq<u8>) -> bool {
    forall|ru: Rule| #[trigger] rules.contains(ru) ==> !occurs(s, ru.pattern_spec())
}

/// `ru` is one of `rules`, and the non-overlapping occurrence scan of `s`
/// for its pattern reports offset `i`.  Every application the engine makes
/// is of this shape: the replaced span starts at a reported occurrence and
/// is exactly as long as the chosen rule's pattern.
pub open spec fn rule_applies(rules: Seq<Rule>, s: Seq<u8>, ru: Rule, i: int) -> bool {
    rules.contains(ru) && scan_offsets(s, ru.pattern_spec()).contains(i)
}

/// A committed input capture: the occurrence the next supplied line will
/// replace.
#[derive(Clone, Copy)]
pub struct Pending {
    pub offset: usize,
    pub len: usize,
}

/// What one engine pass reports to the caller.
pub enum StepOutcome {
    /// No rule's pattern occurs in the state; the run is over.
    Halted,
    /// A substitution was applied; nothing is due from the caller.
    Applied,
    /// An occurrence was deleted; the caller must write `literal` to its
    /// output stream, exactly once.
    Emit { literal: Vec<u8> },
    /// An input rule committed to an occurrence; the caller must read one
    /// line and hand it to `supply_input`, exactly once.
    AwaitInput,
}

/// The rewrite engine: the rules, the state being rewritten, and the
/// committed input capture, if a pass is waiting for one.
pub struct Engine {
    pub rules: Vec<Rule>,
    pub state: Vec<u8>,
    pub pending: Option<Pending>,
}

impl Engine {
    /// Every pattern is non-empty, and a committed capture names an
    /// occurrence of some input rule's pattern within the current state.
    pub open spec fn wf(self) -> bool {
        &&& rules_wf(self.rules@)
        &&& match self.pending {
            Some(p) => p.len > 0 && p.offset + p.len <= self.state@.len() && (exists|ru: Rule|
                #[trigger] self.rules@.contains(ru) && ru is Input && ru.pattern_spec().len()
                    == p.len && is_match_at(self.state@, ru.pattern_spec(), p.offset as int)),
            None => true,
        }
    }

    /// A pass has committed to an input capture and waits for the line.
    pub open spec fn awaiting(self) -> bool {
        self.pending is Some
    }

    /// An engine over a parsed program, ready for its first pass.
    pub fn new(prog: Program) -> (e: Engine)
        requires
            rules_wf(prog.rules@),
        ensures
            e.wf(),
            !e.awaiting(),
            e.rules@ == prog.rules@,
            e.state@ == prog.state@,
    {
        Engine { rules: prog.rules, state: prog.state, pending: None }
    }

    /// Whether the engine waits for an input line, for unverified callers.
    pub fn is_awaiting_input(&self) -> (b: bool)
        ensures
            b == self.awaiting(),
    {
        match self.pending {
            Some(_) => true,
            None => false,
        }
    }

    /// One pass: shuffles the rules, applies the first shuffled rule whose
    /// pattern occurs in the state at one randomly chosen occurrence, and
    /// reports what happened.  The pass halts exactly when no rule's
    /// pattern occurs in the state, and then leaves the state unchanged.
    pub fn step(&mut self, src: &mut RandomSource) -> (r: StepOutcome)
        requires
            old(self).wf(),
            !old(self).awaiting(),
        ensures
            final(self).wf(),
            final(self).rules@.to_multiset() == old(self).rules@.to_multiset(),
            r is Halted <==> no_rule_matches(old(self).rules@, old(self).state@),
            r is Halted ==> final(self).state@ == old(self).state@ && !final(self).awaiting(),
            r is Applied ==> !final(self).awaiting() && (exists|ru: Rule, i: int|
                {
                    &&& rule_applies(old(self).rules@, old(self).state@, ru, i)
                    &&& ru matches Rule::Substitution(sb)
                    &&& final(self).state@ == splice(
                        old(self).state@,
                        i,
                        sb.original@.len() as int,
                        sb.substitute@,
                    )
                }),
            (r matches StepOutcome::Emit { literal } ==> !final(self).awaiting() && (exists|
                ru: Rule,
                i: int,
            |
                {
                    &&& rule_applies(old(self).rules@, old(self).state@, ru, i)
                    &&& ru matches Rule::Output(ob)
                    &&& literal@ == ob.output@
                    &&& final(self).state@ == splice(
                        old(self).state@,
                        i,
                        ob.original@.len() as int,
                        Seq::<u8>::empty(),
                    )
                })),
            r is AwaitInput ==> final(self).awaiting() && final(self).state@ == old(self).state@
                && (exists|ru: Rule|
                {
                    &&& rule_applies(
                        old(self).rules@,
                        old(self).state@,
                        ru,
                        final(self).pending.unwrap().offset as int,
                    )
                    &&& ru matches Rule::Input(ib)
                    &&& ib.original@.len() == final(self).pending.unwrap().len
                }),
    {
        shuffle_rules(&mut self.rules, src);
        proof {
            lemma_same_multiset_wf(old(self).rules@, self.rules@);
        }
        let n = self.rules.len();
        let mut j: usize = 0;
        while j < n
            invariant
                n == self.rules@.len(),
                j <= n,
                old(self).wf(),
                !old(self).awaiting(),
                rules_wf(self.rules@),
                self.rules@.to_multiset() == old(self).rules@.to_multiset(),
                self.state@ == old(self).state@,
                self.pending == old(self).pending,
                forall|k: int|
                    0 <= k < j ==> scan_offsets(
                        self.state@,
                        (#[trigger] self.rules@[k]).pattern_spec(),
                    ).len() == 0,
            decreases n - j,
        {
            proof {
                assert(self.rules@[j as int].pattern_spec().len() > 0);
            }
            let offs = match_offsets(&self.state, self.rules[j].pattern());
            if offs.len() > 0 {
                let ghost pat = self.rules@[j as int].pattern_spec();
                let k = rand_below(src, offs.len());
                let off = offs[k];
                proof {
                    lemma_scan_offsets(self.state@, pat);
                    assert(offsets_view(offs@)[k as int] == off as int);
                    assert(scan_offsets(self.state@, pat).contains(off as int));
                    assert(is_match_at(self.state@, pat, off as int));
                    assert(self.rules@.contains(self.rules@[j as int]));
                    lemma_same_multiset_contains(
                        self.rules@,
                        old(self).rules@,
                        self.rules@[j as int],
                    );
                    assert(!no_rule_matches(old(self).rules@, old(self).state@));
                }
                let ghost ruw = self.rules@[j as int];
                proof {
                    assert(rule_applies(old(self).rules@, old(self).state@, ruw, off as int));
                }
                match &self.rules[j] {
                    Rule::Substitution(sb) => {
                        let plen = sb.original.len();
                        let repl = copy_bytes(&sb.substitute);
                        let new_state = splice_bytes(&self.state, off, plen, &repl);
                        self.state = new_state;
                        proof {
                            assert(ruw matches Rule::Substitution(sbw) && self.state@ == splice(
                                old(self).state@,
                                off as int,
                                sbw.original@.len() as int,
                                sbw.substitute@,
                            ));
                        }
                        return StepOutcome::Applied;
                    },
                    Rule::Input(ib) => {
                        let plen = ib.original.len();
                        self.pending = Some(Pending { offset: off, len: plen });
                        proof {
                            assert(ruw matches Rule::Input(ibw) && ibw.original@.len()
                                == self.pending.unwrap().len);
                            assert(self.rules@.contains(ruw) && ruw is Input
                                && ruw.pattern_spec().len() == self.pending.unwrap().len
                                && is_match_at(
                                self.state@,
                                ruw.pattern_spec(),
                                self.pending.unwrap().offset as int,
                            ));
                        }
                        return StepOutcome::AwaitInput;
                    },
                    Rule::Output(ob) => {
                        let plen = ob.original.len();
                        let lit = copy_bytes(&ob.output);
                        let empty: Vec<u8> = Vec::new();
                        let new_state = splice_bytes(&self.state, off, plen, &empty);
                        self.state = new_state;
                        proof {
                            assert(ruw matches Rule::Output(obw) && lit@ == obw.output@
                                && self.state@ == splice(
                                old(self).state@,
                                off as int,
                                obw.original@.len() as int,
                                Seq::<u8>::empty(),
                            ));
                        }
                        return StepOutcome::Emit { literal: lit };
                    },
                }
            }
            j += 1;
        }
        proof {
            assert forall|ru: Rule| #[trigger]
                old(self).rules@.contains(ru) implies !occurs(
                old(self).state@,
                ru.pattern_spec(),
            ) by {
                lemma_same_multiset_contains(old(self).rules@, self.rules@, ru);
                let k = choose|k: int| 0 <= k < self.rules@.len() && self.rules@[k] == ru;
                assert(scan_offsets(self.state@, self.rules@[k].pattern_spec()).len() == 0);
                lemma_scan_offsets(self.state@, ru.pattern_spec());
            }
        }
        StepOutcome::Halted
    }

    /// Completes a committed input capture: the supplied line replaces the
    /// occurrence the engine committed to, exactly once.
    pub fn supply_input(&mut self, line: &Vec<u8>)
        requires
            old(self).wf(),
            old(self).awaiting(),
        ensures
            final(self).wf(),
            !final(self).awaiting(),
            final(self).rules@ == old(self).rules@,
            final(self).state@ == splice(
                old(self).state@,
                old(self).pending.unwrap().offset as int,
                old(self).pending.unwrap().len as int,
                line@,
            ),
    {
        let p = self.pending.unwrap();
        let new_state = splice_bytes(&self.state, p.offset, p.len, line);
        self.state = new_state;
        self.pending = None;
    }
}

} // verus!
