//! The line-oriented rule grammar.  A rule line is `<pattern>::=<spec>`,
//! split at the first occurrence of the delimiter `::=`.  A line whose
//! pattern and spec are both blank terminates the rule list; a blank pattern
//! with a non-blank spec is a format violation; a line without the delimiter
//! is not a rule line at all.  After the terminator, the remaining lines with
//! their line breaks removed form the initial state.

use vstd::prelude::*;

use crate::rules::Input;
use crate::rules::Output;
use crate::rules::Rule;
use crate::rules::RuleV;
use crate::rules::Substitution;
use crate::rules::emit_literal;
use crate::rules::rules_view;
use crate::rules::rules_wf;
use crate::text::NEWLINE;
use crate::text::sub_bytes;

verus! {

/// The colon byte; the delimiter is two colons and an equals sign.
pub const COLON: u8 = 58;

/// The equals-sign byte.
pub const EQUALS: u8 = 61;

/// The tilde byte, marking an emitting replacement spec.
pub const TILDE: u8 = 126;

/// An ASCII whitespace byte, as trimming understands it.
pub open spec fn is_ws(b: u8) -> bool {
    b == 32 || b == 9 || b == 10 || b == 11 || b == 12 || b == 13
}

/// `s` is empty after trimming: every byte is whitespace.
pub open spec fn blank(s: Seq<u8>) -> bool {
    forall|k: int| 0 <= k < s.len() ==> is_ws(s[k])
}

/// The delimiter `::=` stands in `l` at offset `i`.
pub open spec fn is_delim_at(l: Seq<u8>, i: int) -> bool {
    0 <= i && i + 3 <= l.len() && l[i] == COLON && l[i + 1] == COLON && l[i + 2] == EQUALS
}

/// The first offset at or after `i` where the delimiter stands, if any.
pub open spec fn first_delim_from(l: Seq<u8>, i: int) -> Option<int>
    decreases l.len() - i when 0 <= i
{
    if i + 3 > l.len() {
        None
    } else if is_delim_at(l, i) {
        Some(i)
    } else {
        first_delim_from(l, i + 1)
    }
}

/// The first offset where the delimiter stands in `l`, if any.
pub open spec fn first_delim(l: Seq<u8>) -> Option<int> {
    first_delim_from(l, 0)
}

proof fn lemma_first_delim_from(l: Seq<u8>, i: int)
    requires
        0 <= i,
    ensures
        match first_delim_from(l, i) {
            Some(d) => i <= d && is_delim_at(l, d) && forall|m: int|
                i <= m < d ==> !is_delim_at(l, m),
            None => forall|m: int| i <= m ==> !is_delim_at(l, m),
        },
    decreases l.len() - i,
{
    if i + 3 > l.len() {
    } else if is_delim_at(l, i) {
    } else {
        lemma_first_delim_from(l, i + 1);
    }
}

/// A line's pattern is everything before the first occurrence of the
/// delimiter and its replacement spec everything after it: `first_delim`
/// names the delimiter occurrence that no earlier offset carries, and it
/// answers `None` exactly when no offset carries one.
pub proof fn lemma_first_delim(l: Seq<u8>)
    ensures
        match first_delim(l) {
            Some(d) => is_delim_at(l, d) && forall|m: int| 0 <= m < d ==> !is_delim_at(l, m),
            None => forall|m: int| !is_delim_at(l, m),
        },
{
    lemma_first_delim_from(l, 0);
}

/// Splits a rule line at the first delimiter into pattern and replacement
/// spec, or answers `None` for a line without the delimiter.
pub fn get_rule_params(line: &Vec<u8>) -> (r: Option<(Vec<u8>, Vec<u8>)>)
    ensures
        r is Some <==> first_delim(line@) is Some,
        r matches Some(ps) ==> ps.0@ == line@.subrange(0, first_delim(line@).unwrap())
            && ps.1@ == line@.subrange(
            first_delim(line@).unwrap() + 3,
            line@.len() as int,
        ),
{
    let n = line.len();
    if n < 3 {
        return None;
    }
    let mut i: usize = 0;
    while i <= n - 3
        invariant
            3 <= n,
            n == line@.len(),
            i <= n,
            first_delim(line@) == first_delim_from(line@, i as int),
        decreases n - i,
    {
        if line[i] == COLON && line[i + 1] == COLON && line[i + 2] == EQUALS {
            let head = sub_bytes(line, 0, i);
            let tail = sub_bytes(line, i + 3, n);
            return Some((head, tail));
        }
        i += 1;
    }
    None
}

/// `b` is whitespace in the trimming sense.
fn is_ws_byte(b: u8) -> (r: bool)
    ensures
        r == is_ws(b),
{
    b == 32 || (9 <= b && b <= 13)
}

/// Whether every byte of `s` is whitespace, so `s` trims to nothing.
pub fn is_blank(s: &Vec<u8>) -> (b: bool)
    ensures
        b == blank(s@),
{
    let mut k: usize = 0;
    while k < s.len()
        invariant
            k <= s@.len(),
            forall|j: int| 0 <= j < k ==> is_ws(s@[j]),
        decreases s@.len() - k,
    {
        if !is_ws_byte(s[k]) {
            proof {
                assert(!is_ws(s@[k as int]));
            }
            return false;
        }
        k += 1;
    }
    true
}

/// The replacement spec that marks an input-capturing rule: three colons.
pub open spec fn input_marker() -> Seq<u8> {
    seq![COLON, COLON, COLON]
}

/// The rule a line with pattern `pattern` and replacement spec `rspec`
/// produces: exactly `:::` captures input, a leading `~` emits the rest as a
/// literal (one line break if the rest is empty), anything else substitutes
/// the spec verbatim.
pub open spec fn classify_spec(pattern: Seq<u8>, rspec: Seq<u8>) -> RuleV {
    if rspec == input_marker() {
        RuleV::Input { pattern }
    } else if rspec.len() > 0 && rspec[0] == TILDE {
        RuleV::Output { pattern, literal: emit_literal(rspec.skip(1)) }
    } else {
        RuleV::Substitution { pattern, replacement: rspec }
    }
}

/// Classification is total and exhaustive: every replacement spec produces
/// exactly one of the three variants, and the produced rule keeps the
/// pattern unchanged.
pub proof fn lemma_classify_total(pattern: Seq<u8>, rspec: Seq<u8>)
    ensures
        rspec == input_marker() ==> classify_spec(pattern, rspec) == (RuleV::Input { pattern }),
        rspec != input_marker() && rspec.len() > 0 && rspec[0] == TILDE ==> classify_spec(
            pattern,
            rspec,
        ) == (RuleV::Output { pattern, literal: emit_literal(rspec.skip(1)) }),
        rspec != input_marker() && !(rspec.len() > 0 && rspec[0] == TILDE) ==> classify_spec(
            pattern,
            rspec,
        ) == (RuleV::Substitution { pattern, replacement: rspec }),
        classify_spec(pattern, rspec).pattern() == pattern,
{
}

/// Builds the rule a line classifies to.
pub fn classify(pattern: &Vec<u8>, rspec: &Vec<u8>) -> (r: Rule)
    requires
        pattern@.len() > 0,
    ensures
        r@ == classify_spec(pattern@, rspec@),
        r.pattern_spec() == pattern@,
{
    if rspec.len() == 3 && rspec[0] == COLON && rspec[1] == COLON && rspec[2] == COLON {
        proof {
            assert(rspec@ =~= input_marker());
        }
        Rule::Input(Input::new(pattern))
    } else if rspec.len() > 0 && rspec[0] == TILDE {
        proof {
            assert(rspec@ != input_marker());
        }
        let lit = sub_bytes(rspec, 1, rspec.len());
        proof {
            assert(lit@ =~= rspec@.skip(1));
        }
        Rule::Output(Output::new(pattern, &lit))
    } else {
        proof {
            if rspec@ == input_marker() {
                assert(rspec@[0] == COLON && rspec@[1] == COLON && rspec@[2] == COLON);
            }
        }
        Rule::Substitution(Substitution::new(pattern, rspec))
    }
}

/// The offset of the first line break at or after `i` in `s`, or the length
/// of `s` when no line break follows.
pub open spec fn line_end(s: Seq<u8>, i: int) -> int
    decreases s.len() - i when 0 <= i <= s.len()
{
    if i >= s.len() {
        s.len() as int
    } else if s[i] == NEWLINE {
        i
    } else {
        line_end(s, i + 1)
    }
}

proof fn lemma_line_end(s: Seq<u8>, i: int)
    requires
        0 <= i <= s.len(),
    ensures
        i <= line_end(s, i) <= s.len(),
        line_end(s, i) < s.len() ==> s[line_end(s, i)] == NEWLINE,
        forall|j: int| i <= j < line_end(s, i) ==> s[j] != NEWLINE,
    decreases s.len() - i,
{
    if i >= s.len() {
    } else if s[i] == NEWLINE {
    } else {
        lemma_line_end(s, i + 1);
    }
}

/// The lines of `s` from offset `i` on: maximal line-break-free segments.
/// A trailing line break closes the last line; it does not open an empty one.
pub open spec fn split_from(s: Seq<u8>, i: int) -> Seq<Seq<u8>>
    decreases s.len() - i when 0 <= i <= s.len()
{
    if i >= s.len() {
        Seq::empty()
    } else {
        let e = line_end(s, i);
        if i <= e && e < s.len() {
            seq![s.subrange(i, e)] + split_from(s, e + 1)
        } else {
            seq![s.subrange(i, s.len() as int)]
        }
    }
}

/// The lines of a program source.
pub open spec fn split_lines_spec(s: Seq<u8>) -> Seq<Seq<u8>> {
    split_from(s, 0)
}

/// The concatenation of `lines`: the remainder of a source with every line
/// break removed.
pub open spec fn concat_lines(lines: Seq<Seq<u8>>) -> Seq<u8>
    decreases lines.len()
{
    if lines.len() == 0 {
        Seq::empty()
    } else {
        lines[0] + concat_lines(lines.drop_first())
    }
}

proof fn lemma_lines_deep_view(lines: Vec<Vec<u8>>)
    ensures
        lines.deep_view().len() == lines@.len(),
        forall|i: int| 0 <= i < lines@.len() ==> lines.deep_view()[i] == lines@[i]@,
{
    assert forall|i: int| 0 <= i < lines@.len() implies lines.deep_view()[i] == lines@[i]@ by {
        assert(lines@[i].deep_view() =~= lines@[i]@);
    }
}

/// The offset of the first line break at or after `from`, or the length of
/// `s` when none follows.
fn find_newline(s: &Vec<u8>, from: usize) -> (e: usize)
    requires
        from <= s@.len(),
    ensures
        e == line_end(s@, from as int),
        from <= e <= s@.len(),
{
    let n = s.len();
    let mut k: usize = from;
    while k < n
        invariant
            from <= k <= n,
            n == s@.len(),
            line_end(s@, from as int) == line_end(s@, k as int),
        decreases n - k,
    {
        if s[k] == NEWLINE {
            return k;
        }
        k += 1;
    }
    k
}

/// Splits a program source into its lines.
pub fn split_lines(src: &Vec<u8>) -> (lines: Vec<Vec<u8>>)
    ensures
        lines.deep_view() == split_lines_spec(src@),
{
    let mut lines: Vec<Vec<u8>> = Vec::new();
    let mut pos: usize = 0;
    proof {
        lemma_lines_deep_view(lines);
        assert(lines.deep_view() + split_from(src@, 0) =~= split_from(src@, 0));
    }
    while pos < src.len()
        invariant
            pos <= src@.len(),
            lines.deep_view() + split_from(src@, pos as int) == split_lines_spec(src@),
        decreases src@.len() - pos,
    {
        let e = find_newline(src, pos);
        proof {
            lemma_line_end(src@, pos as int);
        }
        let ghost ldv0 = lines.deep_view();
        if e < src.len() {
            let line = sub_bytes(src, pos, e);
            lines.push(line);
            proof {
                lemma_lines_deep_view(lines);
                assert(line.deep_view() =~= line@);
                assert(lines.deep_view() =~= ldv0.push(line@));
                assert(split_from(src@, pos as int) == seq![src@.subrange(pos as int, e as int)]
                    + split_from(src@, e + 1));
                assert(lines.deep_view() + split_from(src@, e + 1) =~= ldv0 + split_from(
                    src@,
                    pos as int,
                ));
            }
            pos = e + 1;
        } else {
            let line = sub_bytes(src, pos, src.len());
            lines.push(line);
            proof {
                lemma_lines_deep_view(lines);
                assert(line.deep_view() =~= line@);
                assert(lines.deep_view() =~= ldv0.push(line@));
                assert(split_from(src@, pos as int) == seq![
                    src@.subrange(pos as int, src@.len() as int),
                ]);
                assert(lines.deep_view() + split_from(src@, src@.len() as int) =~= ldv0
                    + split_from(src@, pos as int));
            }
            pos = src.len();
        }
    }
    proof {
        assert(split_from(src@, pos as int) =~= Seq::<Seq<u8>>::empty());
        assert(lines.deep_view() + Seq::<Seq<u8>>::empty() =~= lines.deep_view());
    }
    lines
}

/// Concatenates the lines from `start` on: the initial state a program
/// source's remainder denotes.
pub fn build_state(lines: &Vec<Vec<u8>>, start: usize) -> (s: Vec<u8>)
    requires
        start <= lines@.len(),
    ensures
        s@ == concat_lines(lines.deep_view().skip(start as int)),
{
    let ghost dv = lines.deep_view();
    let mut s: Vec<u8> = Vec::new();
    let mut idx: usize = start;
    proof {
        lemma_lines_deep_view(*lines);
        assert(s@ + concat_lines(dv.skip(start as int)) =~= concat_lines(dv.skip(start as int)));
    }
    while idx < lines.len()
        invariant
            start <= idx <= lines@.len(),
            dv == lines.deep_view(),
            dv.len() == lines@.len(),
            forall|i: int| 0 <= i < lines@.len() ==> dv[i] == lines@[i]@,
            s@ + concat_lines(dv.skip(idx as int)) == concat_lines(dv.skip(start as int)),
        decreases lines@.len() - idx,
    {
        let ghost s0 = s@;
        let line = &lines[idx];
        let mut k: usize = 0;
        while k < line.len()
            invariant
                k <= line@.len(),
                s@ == s0 + line@.subrange(0, k as int),
            decreases line@.len() - k,
        {
            s.push(line[k]);
            proof {
                assert(s@ =~= s0 + line@.subrange(0, k + 1));
            }
            k += 1;
        }
        proof {
            assert(line@.subrange(0, line@.len() as int) =~= line@);
            assert(dv.skip(idx as int)[0] == dv[idx as int]);
            assert(dv.skip(idx as int).drop_first() =~= dv.skip(idx as int + 1));
            assert(concat_lines(dv.skip(idx as int)) == dv[idx as int] + concat_lines(
                dv.skip(idx as int + 1),
            ));
            assert(s@ + concat_lines(dv.skip(idx as int + 1)) =~= s0 + concat_lines(
                dv.skip(idx as int),
            ));
        }
        idx += 1;
    }
    proof {
        assert(dv.skip(idx as int) =~= Seq::<Seq<u8>>::empty());
        assert(s@ + concat_lines(Seq::<Seq<u8>>::empty()) =~= s@);
    }
    s
}

/// A fatal parse failure; every one aborts the run.
#[derive(Clone, Copy, Debug, PartialEq, Eq, Structural)]
pub enum ParseError {
    /// The source ended before a terminator line was seen.
    MissingTerminator,
    /// A line before the terminator does not contain the delimiter.
    MissingDelimiter,
    /// A rule line's pattern trims to nothing while its replacement spec
    /// does not.
    EmptyPattern,
}

/// What parsing the rule section of a line sequence yields: the rules and
/// the number of consumed lines (terminator included), or the failure.
pub enum RulesOutcomeV {
    Parsed { rules: Seq<RuleV>, rest: int },
    Failed { err: ParseError },
}

/// Parses the rule section of `lines`.  Each line up to the terminator must
/// carry the delimiter; the terminator is the first line whose pattern and
/// replacement spec are both blank.
pub open spec fn parse_rules_spec(lines: Seq<Seq<u8>>) -> RulesOutcomeV
    decreases lines.len()
{
    if lines.len() == 0 {
        RulesOutcomeV::Failed { err: ParseError::MissingTerminator }
    } else {
        match first_delim(lines[0]) {
            None => RulesOutcomeV::Failed { err: ParseError::MissingDelimiter },
            Some(d) => {
                let pat = lines[0].subrange(0, d);
                let rsp = lines[0].subrange(d + 3, lines[0].len() as int);
                if blank(pat) && blank(rsp) {
                    RulesOutcomeV::Parsed { rules: Seq::empty(), rest: 1 }
                } else if blank(pat) {
                    RulesOutcomeV::Failed { err: ParseError::EmptyPattern }
                } else {
                    match parse_rules_spec(lines.drop_first()) {
                        RulesOutcomeV::Parsed { rules, rest } => RulesOutcomeV::Parsed {
                            rules: seq![classify_spec(pat, rsp)] + rules,
                            rest: rest + 1,
                        },
                        f => f,
                    }
                }
            },
        }
    }
}

/// Terminator detection is exact: a rule-list line whose pattern is blank
/// ends the list only when its replacement spec is blank too; with a
/// non-blank spec the line is a format violation, never a terminator.
pub proof fn lemma_terminator_exact(lines: Seq<Seq<u8>>, d: int)
    requires
        lines.len() > 0,
        first_delim(lines[0]) == Some(d),
        blank(lines[0].subrange(0, d)),
    ensures
        blank(lines[0].subrange(d + 3, lines[0].len() as int)) ==> parse_rules_spec(lines)
            == (RulesOutcomeV::Parsed { rules: Seq::<RuleV>::empty(), rest: 1 }),
        !blank(lines[0].subrange(d + 3, lines[0].len() as int)) ==> parse_rules_spec(lines)
            == (RulesOutcomeV::Failed { err: ParseError::EmptyPattern }),
{
}

/// A line without the delimiter is rejected wherever it stands before the
/// terminator.
pub proof fn lemma_line_without_delimiter(lines: Seq<Seq<u8>>)
    requires
        lines.len() > 0,
        first_delim(lines[0]) is None,
    ensures
        parse_rules_spec(lines) == (RulesOutcomeV::Failed { err: ParseError::MissingDelimiter }),
{
}

/// `o` with `acc` prepended to its rules and `consumed` more lines consumed.
spec fn after_rules(acc: Seq<RuleV>, consumed: int, o: RulesOutcomeV) -> RulesOutcomeV {
    match o {
        RulesOutcomeV::Parsed { rules, rest } => RulesOutcomeV::Parsed {
            rules: acc + rules,
            rest: rest + consumed,
        },
        RulesOutcomeV::Failed { err } => RulesOutcomeV::Failed { err },
    }
}

/// Parses the rule section of `lines`, returning the rules and the index of
/// the first line after the terminator.
pub fn parse_rules(lines: &Vec<Vec<u8>>) -> (r: Result<(Vec<Rule>, usize), ParseError>)
    ensures
        r matches Ok(rn) ==> parse_rules_spec(lines.deep_view()) == (RulesOutcomeV::Parsed {
            rules: rules_view(rn.0@),
            rest: rn.1 as int,
        }) && rules_wf(rn.0@) && rn.1 <= lines@.len(),
        r matches Err(e) ==> parse_rules_spec(lines.deep_view()) == (RulesOutcomeV::Failed {
            err: e,
        }),
{
    let ghost dv = lines.deep_view();
    let n = lines.len();
    let mut acc: Vec<Rule> = Vec::new();
    let mut idx: usize = 0;
    proof {
        lemma_lines_deep_view(*lines);
        assert(dv.skip(0) =~= dv);
        assert(rules_view(acc@) =~= Seq::<RuleV>::empty());
        let o0 = parse_rules_spec(dv);
        if o0 is Parsed {
            assert(rules_view(acc@) + o0->rules =~= o0->rules);
        }
    }
    while idx < n
        invariant
            n == lines@.len(),
            idx <= n,
            dv == lines.deep_view(),
            dv.len() == lines@.len(),
            forall|i: int| 0 <= i < lines@.len() ==> dv[i] == lines@[i]@,
            rules_wf(acc@),
            after_rules(rules_view(acc@), idx as int, parse_rules_spec(dv.skip(idx as int)))
                == parse_rules_spec(dv),
        decreases n - idx,
    {
        let line = &lines[idx];
        proof {
            assert(dv.skip(idx as int)[0] == dv[idx as int]);
        }
        match get_rule_params(line) {
            None => {
                return Err(ParseError::MissingDelimiter);
            },
            Some((pat, rsp)) => {
                let pat_blank = is_blank(&pat);
                let rsp_blank = is_blank(&rsp);
                if pat_blank && rsp_blank {
                    proof {
                        assert(rules_view(acc@) + Seq::<RuleV>::empty() =~= rules_view(acc@));
                    }
                    return Ok((acc, idx + 1));
                } else if pat_blank {
                    return Err(ParseError::EmptyPattern);
                } else {
                    proof {
                        if pat@.len() == 0 {
                            assert(blank(pat@));
                        }
                    }
                    let rule = classify(&pat, &rsp);
                    let ghost acc0 = acc@;
                    acc.push(rule);
                    proof {
                        assert(rules_view(acc@) =~= rules_view(acc0).push(rule@));
                        assert(dv.skip(idx as int).drop_first() =~= dv.skip(idx as int + 1));
                        let o2 = parse_rules_spec(dv.skip(idx as int + 1));
                        if o2 is Parsed {
                            assert(rules_view(acc0) + (seq![rule@] + o2->rules) =~= rules_view(
                                acc0,
                            ).push(rule@) + o2->rules);
                        }
                    }
                    idx += 1;
                }
            },
        }
    }
    proof {
        assert(dv.skip(idx as int) =~= Seq::<Seq<u8>>::empty());
    }
    Err(ParseError::MissingTerminator)
}

/// A parsed program: its rules in source order and its initial state.
pub struct Program {
    pub rules: Vec<Rule>,
    pub state: Vec<u8>,
}

/// What parsing a whole program source yields.
pub enum ParseOutcomeV {
    Parsed { rules: Seq<RuleV>, state: Seq<u8> },
    Failed { err: ParseError },
}

/// Parses a whole program source: the rule section up to the terminator,
/// then the remaining lines, stripped of line breaks, as the initial state.
pub open spec fn parse_program_spec(src: Seq<u8>) -> ParseOutcomeV {
    let lines = split_lines_spec(src);
    match parse_rules_spec(lines) {
        RulesOutcomeV::Parsed { rules, rest } => ParseOutcomeV::Parsed {
            rules,
            state: concat_lines(lines.skip(rest)),
        },
        RulesOutcomeV::Failed { err } => ParseOutcomeV::Failed { err },
    }
}

/// Parses a program source into its rules and initial state.
pub fn parse_program(src: &Vec<u8>) -> (r: Result<Program, ParseError>)
    ensures
        r matches Ok(p) ==> parse_program_spec(src@) == (ParseOutcomeV::Parsed {
            rules: rules_view(p.rules@),
            state: p.state@,
        }) && rules_wf(p.rules@),
        r matches Err(e) ==> parse_program_spec(src@) == (ParseOutcomeV::Failed { err: e }),
{
    let lines = split_lines(src);
    match parse_rules(&lines) {
        Ok((rules, rest)) => {
            let state = build_state(&lines, rest);
            Ok(Program { rules, state })
        },
        Err(e) => Err(e),
    }
}

} // verus!
