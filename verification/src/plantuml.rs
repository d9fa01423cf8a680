//! PlantUML diagram generation.
//!
//! Renders a log of `(from, to)` transitions, the current state, and the
//! optional superstate table as a PlantUML state diagram.  The exact text
//! produced is pinned down by [`plantuml_spec`].

use vstd::prelude::*;
use vstd::string::StringExecFns;

use crate::registry::find_key;
use crate::registry::lemma_map_of_pairs_contains;
use crate::registry::lemma_map_of_pairs_last;
use crate::registry::map_of_pairs;

verus! {

/// The character of a single decimal digit.
pub open spec fn dec_digit(d: nat) -> char {
    if d == 0 {
        '0'
    } else if d == 1 {
        '1'
    } else if d == 2 {
        '2'
    } else if d == 3 {
        '3'
    } else if d == 4 {
        '4'
    } else if d == 5 {
        '5'
    } else if d == 6 {
        '6'
    } else if d == 7 {
        '7'
    } else if d == 8 {
        '8'
    } else {
        '9'
    }
}

/// The decimal rendering of a number, most significant digit first.
pub open spec fn dec_digits(n: nat) -> Seq<char>
    decreases n,
{
    if n < 10 {
        seq![dec_digit(n)]
    } else {
        dec_digits(n / 10).push(dec_digit(n % 10))
    }
}

/// The states a transition log mentions, in first-occurrence order.
pub open spec fn collect_states(log: Seq<(u64, u64)>) -> Seq<u64>
    decreases log.len(),
{
    if log.len() == 0 {
        Seq::empty()
    } else {
        let prev = collect_states(log.drop_last());
        let f = log.last().0;
        let t = log.last().1;
        let with_f = if prev.contains(f) {
            prev
        } else {
            prev.push(f)
        };
        if with_f.contains(t) {
            with_f
        } else {
            with_f.push(t)
        }
    }
}

/// One `child -up-> parent` line for each listed state that has a parent.
pub open spec fn parent_lines(states: Seq<u64>, parents: Map<u64, u64>) -> Seq<char>
    decreases states.len(),
{
    if states.len() == 0 {
        Seq::empty()
    } else {
        parent_lines(states.drop_last(), parents) + (if parents.contains_key(states.last()) {
            dec_digits(states.last() as nat) + (" -up-> ")@ + dec_digits(
                parents[states.last()] as nat,
            ) + (" : parent\n")@
        } else {
            Seq::<char>::empty()
        })
    }
}

/// One `from --> to` line for each logged transition.
pub open spec fn transition_lines(log: Seq<(u64, u64)>) -> Seq<char>
    decreases log.len(),
{
    if log.len() == 0 {
        Seq::empty()
    } else {
        transition_lines(log.drop_last()) + dec_digits(log.last().0 as nat) + (" --> ")@
            + dec_digits(log.last().1 as nat) + ("\n")@
    }
}

/// The fixed preamble of every diagram.
pub open spec fn plantuml_header() -> Seq<char> {
    ("@startuml\n")@ + ("skinparam state {\n")@ + ("  BackgroundColor<<Current>> YellowGreen\n")@
        + ("}\n\n")@
}

/// The whole diagram: preamble, hierarchy section (when a superstate table
/// was supplied), transition lines, current-state marker, and closing tag.
pub open spec fn plantuml_spec(
    log: Seq<(u64, u64)>,
    current: Option<u64>,
    parents: Option<Map<u64, u64>>,
) -> Seq<char> {
    plantuml_header() + (match parents {
        Some(p) => parent_lines(collect_states(log), p) + (if collect_states(log).len() > 0 {
            ("\n")@
        } else {
            Seq::<char>::empty()
        }),
        None => Seq::<char>::empty(),
    }) + transition_lines(log) + (match current {
        Some(c) => ("state ")@ + dec_digits(c as nat) + (" <<Current>>\n")@,
        None => Seq::<char>::empty(),
    }) + ("@enduml\n")@
}

/// Appends the decimal rendering of `n`.
fn push_decimal(out: &mut String, n: u64)
    ensures
        final(out)@ == old(out)@ + dec_digits(n as nat),
    decreases n,
{
    if n >= 10 {
        proof {
            assert(n / 10 < n) by (nonlinear_arith)
                requires
                    n >= 10,
            ;
        }
        push_decimal(out, n / 10);
    }
    let d = n % 10;
    let ds: &str = if d == 0 {
        "0"
    } else if d == 1 {
        "1"
    } else if d == 2 {
        "2"
    } else if d == 3 {
        "3"
    } else if d == 4 {
        "4"
    } else if d == 5 {
        "5"
    } else if d == 6 {
        "6"
    } else if d == 7 {
        "7"
    } else if d == 8 {
        "8"
    } else {
        "9"
    };
    proof {
        reveal_strlit("0");
        reveal_strlit("1");
        reveal_strlit("2");
        reveal_strlit("3");
        reveal_strlit("4");
        reveal_strlit("5");
        reveal_strlit("6");
        reveal_strlit("7");
        reveal_strlit("8");
        reveal_strlit("9");
        assert(ds@ =~= seq![dec_digit((n % 10) as nat)]);
    }
    out.append(ds);
    proof {
        assert(out@ =~= old(out)@ + dec_digits(n as nat));
    }
}

/// Whether a vector of state identifiers holds `x`.
fn contains_id(v: &Vec<u64>, x: u64) -> (r: bool)
    ensures
        r == v@.contains(x),
{
    let mut i: usize = 0;
    while i < v.len()
        invariant
            i <= v@.len(),
            forall|j: int| 0 <= j < i ==> v@[j] != x,
        decreases v@.len() - i,
    {
        if v[i] == x {
            return true;
        }
        i = i + 1;
    }
    false
}

/// Generate a PlantUML diagram from a transition log, producing exactly
/// [`plantuml_spec`] of the inputs.
pub fn generate_plantuml(
    transition_log: &Vec<(u64, u64)>,
    current_state: &Option<u64>,
    superstate_fn: &Option<Vec<(u64, u64)>>,
) -> (r: String)
    ensures
        r@ == plantuml_spec(
            transition_log@,
            *current_state,
            match superstate_fn {
                Some(t) => Some(map_of_pairs(t@)),
                None => None,
            },
        ),
{
    let mut out = String::new();
    out.append("@startuml\n");
    out.append("skinparam state {\n");
    out.append("  BackgroundColor<<Current>> YellowGreen\n");
    out.append("}\n\n");
    proof {
        assert(out@ =~= plantuml_header());
    }

    // Add hierarchy relationships first.
    if let Some(table) = superstate_fn {
        let ghost pmap = map_of_pairs(table@);

        // Collect all states from transitions, in first-occurrence order.
        let mut seen: Vec<u64> = Vec::new();
        let mut i: usize = 0;
        while i < transition_log.len()
            invariant
                i <= transition_log@.len(),
                seen@ == collect_states(transition_log@.subrange(0, i as int)),
            decreases transition_log@.len() - i,
        {
            let ghost prefix = transition_log@.subrange(0, i as int);
            let f = transition_log[i].0;
            let t = transition_log[i].1;
            if !contains_id(&seen, f) {
                seen.push(f);
            }
            if !contains_id(&seen, t) {
                seen.push(t);
            }
            i = i + 1;
            proof {
                assert(transition_log@.subrange(0, i as int).drop_last() =~= prefix);
                assert(transition_log@.subrange(0, i as int).last() == transition_log@[i - 1]);
            }
        }
        proof {
            assert(transition_log@.subrange(0, transition_log@.len() as int) =~= transition_log@);
        }

        // Add parent relationships.
        let ghost base = out@;
        let mut j: usize = 0;
        while j < seen.len()
            invariant
                j <= seen@.len(),
                pmap == map_of_pairs(table@),
                out@ == base + parent_lines(seen@.subrange(0, j as int), pmap),
            decreases seen@.len() - j,
        {
            let ghost sofar = seen@.subrange(0, j as int);
            let s = seen[j];
            proof {
                lemma_map_of_pairs_contains(table@, s);
            }
            match find_key(table, s) {
                Some(k) => {
                    proof {
                        lemma_map_of_pairs_last(table@, k as int);
                    }
                    let p = table[k].1;
                    let ghost line = dec_digits(s as nat) + (" -up-> ")@ + dec_digits(p as nat) + (
                    " : parent\n")@;
                    let ghost o0 = out@;
                    push_decimal(&mut out, s);
                    out.append(" -up-> ");
                    push_decimal(&mut out, p);
                    out.append(" : parent\n");
                    proof {
                        assert(pmap.contains_key(s) && pmap[s] == p);
                        assert(out@ =~= o0 + line);
                        assert(sofar.push(s).drop_last() =~= sofar);
                        assert(sofar.push(s).last() == s);
                        assert(parent_lines(sofar.push(s), pmap) =~= parent_lines(sofar, pmap)
                            + line);
                    }
                }
                None => {
                    proof {
                        assert(!pmap.contains_key(s));
                        assert(sofar.push(s).drop_last() =~= sofar);
                        assert(sofar.push(s).last() == s);
                        assert(parent_lines(sofar.push(s), pmap) =~= parent_lines(sofar, pmap));
                    }
                }
            }
            j = j + 1;
            proof {
                assert(seen@.subrange(0, j as int) =~= sofar.push(s));
                assert(out@ =~= base + parent_lines(seen@.subrange(0, j as int), pmap));
            }
        }
        proof {
            assert(seen@.subrange(0, seen@.len() as int) =~= seen@);
        }

        if seen.len() > 0 {
            out.append("\n");
        }
    }

    // Add transitions.
    let ghost base2 = out@;
    let mut i: usize = 0;
    while i < transition_log.len()
        invariant
            i <= transition_log@.len(),
            out@ == base2 + transition_lines(transition_log@.subrange(0, i as int)),
        decreases transition_log@.len() - i,
    {
        let ghost prefix = transition_log@.subrange(0, i as int);
        let f = transition_log[i].0;
        let t = transition_log[i].1;
        push_decimal(&mut out, f);
        out.append(" --> ");
        push_decimal(&mut out, t);
        out.append("\n");
        i = i + 1;
        proof {
            assert(transition_log@.subrange(0, i as int).drop_last() =~= prefix);
            assert(transition_log@.subrange(0, i as int).last() == transition_log@[i - 1]);
            assert(out@ =~= base2 + transition_lines(transition_log@.subrange(0, i as int)));
        }
    }
    proof {
        assert(transition_log@.subrange(0, transition_log@.len() as int) =~= transition_log@);
    }

    // Mark the current state.
    if let Some(current) = current_state {
        out.append("state ");
        push_decimal(&mut out, *current);
        out.append(" <<Current>>\n");
    }

    out.append("@enduml\n");
    proof {
        assert(out@ =~= plantuml_spec(
            transition_log@,
            *current_state,
            match superstate_fn {
                Some(t) => Some(map_of_pairs(t@)),
                None => None,
            },
        ));
    }
    out
}

} // verus!
