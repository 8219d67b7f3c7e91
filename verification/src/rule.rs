//! The rule compiler: parses a rule string such as `B3/S23` into a birth
//! set and a survival set of neighbor counts.
//!
//! The compiled [`Rule`] is the single canonical representation; both of
//! its read-only projections — direct membership evaluation and emitted
//! boolean-expression source text for a parallel evaluator — derive from
//! it and therefore cannot diverge.

use vstd::prelude::*;
use vstd::string::{StrSliceExecFns, StringExecFns};

verus! {

/// Why a rule string was rejected.
#[derive(Clone, Copy, Debug, PartialEq, Eq, Structural)]
pub enum RuleError {
    /// The string does not start with `B` or holds no `/S` marker.
    InvalidRuleFormat,
    /// A character in one of the two digit runs is outside `0`–`8`.
    InvalidRuleDigit,
}

/// `c` is one of the nine digits a life-like rule accepts (`0`–`8`).
pub open spec fn is_rule_digit(c: char) -> bool {
    48 <= c as u32 <= 56
}

/// The neighbor count a rule digit stands for.
pub open spec fn digit_of(c: char) -> int {
    c as u32 - 48
}

/// The first index at or after `i` where the marker `/S` starts, or
/// `s.len()` when the marker does not occur there.
pub open spec fn slash_s_from(s: Seq<char>, i: int) -> int
    decreases s.len() - i,
{
    if i + 2 > s.len() {
        s.len() as int
    } else if s[i] == '/' && s[i + 1] == 'S' {
        i
    } else {
        slash_s_from(s, i + 1)
    }
}

/// Index of the first `/S` marker of `s`, or `s.len()` when none occurs.
pub open spec fn slash_s_pos(s: Seq<char>) -> int {
    slash_s_from(s, 0)
}

/// The string starts with the `B` marker and holds the `/S` marker.
pub open spec fn rule_has_markers(s: Seq<char>) -> bool {
    s.len() > 0 && s[0] == 'B' && slash_s_pos(s) + 2 <= s.len()
}

/// The birth digit run: between the leading `B` and the first `/S`.
pub open spec fn born_run(s: Seq<char>) -> Seq<char> {
    s.subrange(1, slash_s_pos(s))
}

/// The survival digit run: after the first `/S`, to the end of the string.
pub open spec fn survive_run(s: Seq<char>) -> Seq<char> {
    s.subrange(slash_s_pos(s) + 2, s.len() as int)
}

/// Every character of the run is a rule digit.
pub open spec fn all_rule_digits(run: Seq<char>) -> bool {
    forall|i: int| 0 <= i < run.len() ==> is_rule_digit(#[trigger] run[i])
}

/// The set of neighbor counts a digit run names, as a membership sequence
/// indexed by count 0 to 8.  An empty run names no count at all.
pub open spec fn run_counts(run: Seq<char>) -> Seq<bool> {
    Seq::new(9, |d: int| exists|i: int| 0 <= i < run.len() && digit_of(#[trigger] run[i]) == d)
}

/// Where the marker search lands: on the first `/S` when the marker
/// occurs at or after `i`, on `s.len()` when it does not.
pub proof fn lemma_slash_s_from_spec(s: Seq<char>, i: int)
    requires
        0 <= i <= s.len(),
    ensures
        ({
            let p = slash_s_from(s, i);
            &&& i <= p <= s.len()
            &&& (p + 2 <= s.len() ==> s[p] == '/' && s[p + 1] == 'S')
            &&& (p + 2 > s.len() ==> p == s.len())
            &&& forall|j: int|
                i <= j < p && j + 2 <= s.len() ==> !(#[trigger] s[j] == '/' && s[j + 1] == 'S')
        }),
    decreases s.len() - i,
{
    if i + 2 > s.len() {
    } else if s[i] == '/' && s[i + 1] == 'S' {
    } else {
        lemma_slash_s_from_spec(s, i + 1);
    }
}

/// The source-text digit for a neighbor count.
pub open spec fn digit_char(d: int) -> char {
    if d == 0 {
        '0'
    } else if d == 1 {
        '1'
    } else if d == 2 {
        '2'
    } else if d == 3 {
        '3'
    } else if d == 4 {
        '4'
    } else if d == 5 {
        '5'
    } else if d == 6 {
        '6'
    } else if d == 7 {
        '7'
    } else {
        '8'
    }
}

/// The text of one comparison clause, `sum == d`.
pub open spec fn clause_text(d: int) -> Seq<char> {
    "sum == "@ + seq![digit_char(d)]
}

/// Some neighbor count below `n` is in the set.
pub open spec fn any_count_below(set: Seq<bool>, n: int) -> bool {
    exists|d: int| 0 <= d < n && set[d]
}

/// The clauses for all set counts below `n`, in ascending order of count,
/// joined by ` || `.
pub open spec fn clauses_below(set: Seq<bool>, n: int) -> Seq<char>
    decreases n,
{
    if n <= 0 {
        Seq::empty()
    } else if set[n - 1] {
        if any_count_below(set, n - 1) {
            clauses_below(set, n - 1) + " || "@ + clause_text(n - 1)
        } else {
            clause_text(n - 1)
        }
    } else {
        clauses_below(set, n - 1)
    }
}

/// The boolean-expression source text of a set of neighbor counts: the
/// membership test over a variable `sum` written out, or `false` for the
/// empty set.  It reads the same membership sequence that the direct
/// predicate evaluates, so the two projections cannot diverge.
pub open spec fn cond_text(set: Seq<bool>) -> Seq<char> {
    if any_count_below(set, 9) {
        clauses_below(set, 9)
    } else {
        "false"@
    }
}

/// A set with no member below `n` renders to no clause at all.
proof fn lemma_clauses_below_empty(set: Seq<bool>, n: int)
    requires
        !any_count_below(set, n),
    ensures
        clauses_below(set, n) == Seq::<char>::empty(),
    decreases n,
{
    if n > 0 {
        assert(!any_count_below(set, n - 1));
        lemma_clauses_below_empty(set, n - 1);
    }
}

/// The birth set of Conway's Life, `B3`.
pub open spec fn conway_born() -> Seq<bool> {
    seq![false, false, false, true, false, false, false, false, false]
}

/// The survival set of Conway's Life, `S23`.
pub open spec fn conway_survive() -> Seq<bool> {
    seq![false, false, true, true, false, false, false, false, false]
}

/// Finds the first `/S` marker of `s`, returning the string length when
/// there is none.
fn find_marker(s: &str) -> (pos: usize)
    ensures
        pos as int == slash_s_pos(s@),
{
    let n = s.unicode_len();
    let mut i: usize = 0;
    while i < n && i + 1 < n
        invariant
            n == s@.len(),
            0 <= i <= n,
            slash_s_pos(s@) == slash_s_from(s@, i as int),
        decreases n - i,
    {
        if s.get_char(i) == '/' && s.get_char(i + 1) == 'S' {
            return i;
        }
        i += 1;
    }
    n
}

/// Collects the neighbor counts named by the digit run `s[from..to]`, or
/// reports the first character outside `0`–`8`.
fn collect_run(s: &str, from: usize, to: usize) -> (r: Result<Vec<bool>, RuleError>)
    requires
        from <= to <= s@.len(),
    ensures
        ({
            let run = s@.subrange(from as int, to as int);
            match r {
                Ok(set) => all_rule_digits(run) && set@ == run_counts(run),
                Err(e) => !all_rule_digits(run) && e == RuleError::InvalidRuleDigit,
            }
        }),
{
    let ghost run = s@.subrange(from as int, to as int);
    let mut set: Vec<bool> = vec![false; 9];
    let mut i = from;
    while i < to
        invariant
            from <= i <= to <= s@.len(),
            run == s@.subrange(from as int, to as int),
            set@.len() == 9,
            all_rule_digits(s@.subrange(from as int, i as int)),
            forall|d: int| 0 <= d < 9 ==> #[trigger] set@[d] == run_counts(
                s@.subrange(from as int, i as int),
            )[d],
        decreases to - i,
    {
        let ch = s.get_char(i);
        let u = ch as u32;
        if u < 48 || u > 56 {
            proof {
                assert(run[i - from] == s@[i as int]);
                assert(!is_rule_digit(run[i - from]));
            }
            return Err(RuleError::InvalidRuleDigit);
        }
        let d = (u - 48) as usize;
        let ghost run0 = s@.subrange(from as int, i as int);
        set[d] = true;
        i += 1;
        proof {
            let run1 = s@.subrange(from as int, i as int);
            assert(run1 =~= run0.push(s@[i - 1]));
            assert forall|dd: int| 0 <= dd < 9 implies #[trigger] set@[dd] == run_counts(
                run1,
            )[dd] by {
                if dd == d {
                    assert(digit_of(run1[run1.len() - 1]) == dd);
                    assert(run_counts(run1)[dd]);
                } else {
                    if run_counts(run1)[dd] {
                        let ii = choose|ii: int|
                            0 <= ii < run1.len() && digit_of(#[trigger] run1[ii]) == dd;
                        assert(ii < run0.len());
                        assert(digit_of(run0[ii]) == dd);
                        assert(run_counts(run0)[dd]);
                    }
                    if run_counts(run0)[dd] {
                        let ii = choose|ii: int|
                            0 <= ii < run0.len() && digit_of(#[trigger] run0[ii]) == dd;
                        assert(digit_of(run1[ii]) == dd);
                        assert(run_counts(run1)[dd]);
                    }
                }
            }
            assert forall|k: int| 0 <= k < run1.len() implies is_rule_digit(
                #[trigger] run1[k],
            ) by {
                if k < run0.len() {
                    assert(is_rule_digit(run0[k]));
                }
            }
        }
    }
    proof {
        assert(set@ =~= run_counts(run));
    }
    Ok(set)
}

/// Renders a membership set of neighbor counts as boolean-expression
/// source text over a variable `sum`.
fn cond_source(set: &Vec<bool>) -> (out: String)
    requires
        set@.len() == 9,
    ensures
        out@ == cond_text(set@),
{
    let mut out = String::new();
    let mut any = false;
    let mut d: usize = 0;
    while d < 9
        invariant
            set@.len() == 9,
            0 <= d <= 9,
            any == any_count_below(set@, d as int),
            out@ == clauses_below(set@, d as int),
        decreases 9 - d,
    {
        if set[d] {
            if any {
                out.append(" || ");
            }
            out.append("sum == ");
            out.append(digit_str(d));
            proof {
                if any_count_below(set@, d as int) {
                    assert(out@ =~= clauses_below(set@, d as int) + " || "@ + clause_text(
                        d as int,
                    ));
                } else {
                    lemma_clauses_below_empty(set@, d as int);
                    assert(out@ =~= clause_text(d as int));
                }
                assert(set@[d as int]);
                assert(any_count_below(set@, d as int + 1));
            }
            any = true;
        } else {
            proof {
                assert forall|dd: int| 0 <= dd < d + 1 && set@[dd] implies dd < d by {}
                assert(any_count_below(set@, d as int + 1) == any_count_below(set@, d as int));
            }
        }
        d += 1;
    }
    if any {
        out
    } else {
        proof {
            lemma_clauses_below_empty(set@, 9);
        }
        "false".to_owned()
    }
}

/// The source-text digit for a neighbor count.
fn digit_str(d: usize) -> (s: &'static str)
    requires
        d <= 8,
    ensures
        s@ == seq![digit_char(d as int)],
{
    if d == 0 {
        proof {
            reveal_strlit("0");
            assert("0"@ =~= seq![digit_char(0)]);
        }
        "0"
    } else if d == 1 {
        proof {
            reveal_strlit("1");
            assert("1"@ =~= seq![digit_char(1)]);
        }
        "1"
    } else if d == 2 {
        proof {
            reveal_strlit("2");
            assert("2"@ =~= seq![digit_char(2)]);
        }
        "2"
    } else if d == 3 {
        proof {
            reveal_strlit("3");
            assert("3"@ =~= seq![digit_char(3)]);
        }
        "3"
    } else if d == 4 {
        proof {
            reveal_strlit("4");
            assert("4"@ =~= seq![digit_char(4)]);
        }
        "4"
    } else if d == 5 {
        proof {
            reveal_strlit("5");
            assert("5"@ =~= seq![digit_char(5)]);
        }
        "5"
    } else if d == 6 {
        proof {
            reveal_strlit("6");
            assert("6"@ =~= seq![digit_char(6)]);
        }
        "6"
    } else if d == 7 {
        proof {
            reveal_strlit("7");
            assert("7"@ =~= seq![digit_char(7)]);
        }
        "7"
    } else {
        proof {
            reveal_strlit("8");
            assert("8"@ =~= seq![digit_char(8)]);
        }
        "8"
    }
}

/// A compiled life-like rule: for each neighbor count 0 to 8, whether a
/// dead cell is born and whether a live cell survives.  Compiled once,
/// immutable thereafter.
#[derive(Debug)]
pub struct Rule {
    born: Vec<bool>,
    survive: Vec<bool>,
}

impl Rule {
    /// The birth set, as a membership sequence indexed by neighbor count.
    pub closed spec fn born_seq(self) -> Seq<bool> {
        self.born@
    }

    /// The survival set, as a membership sequence indexed by neighbor count.
    pub closed spec fn survive_seq(self) -> Seq<bool> {
        self.survive@
    }

    /// Both sets cover exactly the neighbor counts 0 to 8.
    pub closed spec fn wf(self) -> bool {
        self.born@.len() == 9 && self.survive@.len() == 9
    }

    /// The classic rule `B3/S23`.
    pub fn conway() -> (rule: Rule)
        ensures
            rule.wf(),
            rule.born_seq() == conway_born(),
            rule.survive_seq() == conway_survive(),
    {
        let mut born = vec![false; 9];
        let mut survive = vec![false; 9];
        born[3] = true;
        survive[2] = true;
        survive[3] = true;
        let rule = Rule { born, survive };
        proof {
            assert(rule.born_seq() =~= conway_born());
            assert(rule.survive_seq() =~= conway_survive());
        }
        rule
    }

    /// A dead cell with `sum` live neighbors is born under this rule.
    pub fn is_born(&self, sum: u8) -> (r: bool)
        requires
            self.wf(),
            sum <= 8,
        ensures
            r == self.born_seq()[sum as int],
    {
        self.born[sum as usize]
    }

    /// A live cell with `sum` live neighbors survives under this rule.
    pub fn survives(&self, sum: u8) -> (r: bool)
        requires
            self.wf(),
            sum <= 8,
        ensures
            r == self.survive_seq()[sum as int],
    {
        self.survive[sum as usize]
    }

    /// Compiles a rule string `B<digits>/S<digits>` (digits `0`–`8`; an
    /// empty run means "never") into its birth and survival sets.
    /// Fails with `InvalidRuleFormat` exactly when the leading `B` or the
    /// `/S` marker is missing, and with `InvalidRuleDigit` exactly when
    /// the markers are in place but a run character is outside `0`–`8`.
    pub fn parse(s: &str) -> (r: Result<Rule, RuleError>)
        ensures
            r is Ok <==> rule_has_markers(s@) && all_rule_digits(born_run(s@)) && all_rule_digits(
                survive_run(s@),
            ),
            match r {
                Ok(rule) => {
                    &&& rule.wf()
                    &&& rule.born_seq() == run_counts(born_run(s@))
                    &&& rule.survive_seq() == run_counts(survive_run(s@))
                },
                Err(e) => {
                    &&& (e == RuleError::InvalidRuleFormat <==> !rule_has_markers(s@))
                    &&& (e == RuleError::InvalidRuleDigit <==> rule_has_markers(s@) && !(
                    all_rule_digits(born_run(s@)) && all_rule_digits(survive_run(s@))))
                },
            },
    {
        let n = s.unicode_len();
        if n == 0 || s.get_char(0) != 'B' {
            return Err(RuleError::InvalidRuleFormat);
        }
        let pos = find_marker(s);
        proof {
            lemma_slash_s_from_spec(s@, 0);
        }
        if pos == n {
            return Err(RuleError::InvalidRuleFormat);
        }
        let born = match collect_run(s, 1, pos) {
            Ok(set) => set,
            Err(e) => {
                return Err(e);
            },
        };
        let survive = match collect_run(s, pos + 2, n) {
            Ok(set) => set,
            Err(e) => {
                return Err(e);
            },
        };
        Ok(Rule { born, survive })
    }

    /// The birth predicate rendered as boolean-expression source text,
    /// for embedding in a parallel evaluator.
    pub fn born_text(&self) -> (out: String)
        requires
            self.wf(),
        ensures
            out@ == cond_text(self.born_seq()),
    {
        cond_source(&self.born)
    }

    /// The survival predicate rendered as boolean-expression source text,
    /// for embedding in a parallel evaluator.
    pub fn survive_text(&self) -> (out: String)
        requires
            self.wf(),
        ensures
            out@ == cond_text(self.survive_seq()),
    {
        cond_source(&self.survive)
    }
}

/// Compiles a rule string straight to the pair of boolean-expression
/// condition texts (birth, survival) that a parallel evaluator embeds;
/// the same compiled sets also drive the direct membership predicates.
pub fn parse_rule_to_cond(s: &str) -> (r: Result<(String, String), RuleError>)
    ensures
        r is Ok <==> rule_has_markers(s@) && all_rule_digits(born_run(s@)) && all_rule_digits(
            survive_run(s@),
        ),
        match r {
            Ok(conds) => {
                &&& conds.0@ == cond_text(run_counts(born_run(s@)))
                &&& conds.1@ == cond_text(run_counts(survive_run(s@)))
            },
            Err(e) => {
                &&& (e == RuleError::InvalidRuleFormat <==> !rule_has_markers(s@))
                &&& (e == RuleError::InvalidRuleDigit <==> rule_has_markers(s@) && !(
                all_rule_digits(born_run(s@)) && all_rule_digits(survive_run(s@))))
            },
        },
{
    match Rule::parse(s) {
        Ok(rule) => Ok((rule.born_text(), rule.survive_text())),
        Err(e) => Err(e),
    }
}

} // verus!
