//! The naming scheme for persisted snapshot state directories:
//! `fitm-gen{generation}-state{state_id}`, plus the decimal rendering it
//! rests on and the per-generation input directory name.

use vstd::prelude::*;
use vstd::string::StringExecFns;

verus! {

/// The character for a single decimal digit.
pub open spec fn digit_char(d: nat) -> char {
    if d == 0 {
        '0'
    } else if d == 1 {
        '1'
    } else if d == 2 {
        '2'
    } else if d == 3 {
        '3'
    } else if d == 4 {
        '4'
    } else if d == 5 {
        '5'
    } else if d == 6 {
        '6'
    } else if d == 7 {
        '7'
    } else if d == 8 {
        '8'
    } else {
        '9'
    }
}

/// The canonical decimal rendering of a number: no sign, no leading zeros.
pub open spec fn spec_dec(n: nat) -> Seq<char>
    decreases n,
{
    if n < 10 {
        seq![digit_char(n)]
    } else {
        spec_dec(n / 10).push(digit_char(n % 10))
    }
}

fn digit_str(d: u64) -> (r: &'static str)
    requires
        d < 10,
    ensures
        r@ == seq![digit_char(d as nat)],
{
    proof {
        reveal_strlit("0");
        reveal_strlit("1");
        reveal_strlit("2");
        reveal_strlit("3");
        reveal_strlit("4");
        reveal_strlit("5");
        reveal_strlit("6");
        reveal_strlit("7");
        reveal_strlit("8");
        reveal_strlit("9");
    }
    if d == 0 {
        proof { assert("0"@ =~= seq![digit_char(0)]); }
        "0"
    } else if d == 1 {
        proof { assert("1"@ =~= seq![digit_char(1)]); }
        "1"
    } else if d == 2 {
        proof { assert("2"@ =~= seq![digit_char(2)]); }
        "2"
    } else if d == 3 {
        proof { assert("3"@ =~= seq![digit_char(3)]); }
        "3"
    } else if d == 4 {
        proof { assert("4"@ =~= seq![digit_char(4)]); }
        "4"
    } else if d == 5 {
        proof { assert("5"@ =~= seq![digit_char(5)]); }
        "5"
    } else if d == 6 {
        proof { assert("6"@ =~= seq![digit_char(6)]); }
        "6"
    } else if d == 7 {
        proof { assert("7"@ =~= seq![digit_char(7)]); }
        "7"
    } else if d == 8 {
        proof { assert("8"@ =~= seq![digit_char(8)]); }
        "8"
    } else {
        proof { assert("9"@ =~= seq![digit_char(9)]); }
        "9"
    }
}

/// Renders a number in canonical decimal.
pub fn dec_string(n: u64) -> (r: String)
    ensures
        r@ == spec_dec(n as nat),
    decreases n,
{
    if n < 10 {
        let d = digit_str(n);
        d.to_owned()
    } else {
        let mut s = dec_string(n / 10);
        s.append(digit_str(n % 10));
        proof {
            assert(s@ =~= spec_dec((n / 10) as nat).push(digit_char((n % 10) as nat)));
        }
        s
    }
}

/// The persisted directory name for the snapshot at the given generation and
/// state id.
pub open spec fn spec_state_path(generation: nat, state_id: nat) -> Seq<char> {
    "fitm-gen"@ + spec_dec(generation) + "-state"@ + spec_dec(state_id)
}

/// Builds the `fitm-gen{generation}-state{state_id}` directory name.
pub fn state_path_for(generation: u32, state_id: usize) -> (r: String)
    ensures
        r@ == spec_state_path(generation as nat, state_id as nat),
{
    let mut s = "fitm-gen".to_owned();
    let g = dec_string(generation as u64);
    s.append(g.as_str());
    s.append("-state");
    let i = dec_string(state_id as u64);
    s.append(i.as_str());
    proof {
        assert(s@ =~= spec_state_path(generation as nat, state_id as nat));
    }
    s
}

/// The directory holding externally supplied seed inputs for a generation.
pub open spec fn spec_generation_input_dir(generation: nat) -> Seq<char> {
    "./generation_inputs/"@ + spec_dec(generation)
}

/// Builds the `./generation_inputs/{generation}` directory name.
pub fn generation_input_dir(generation: usize) -> (r: String)
    ensures
        r@ == spec_generation_input_dir(generation as nat),
{
    let mut s = "./generation_inputs/".to_owned();
    let g = dec_string(generation as u64);
    s.append(g.as_str());
    s
}


/// Whether a character is a decimal digit.
pub open spec fn is_digit(c: char) -> bool {
    48 <= c as u32 <= 57
}

/// The numeric value of a decimal digit character.
pub open spec fn digit_val(c: char) -> nat {
    (c as u32 - 48) as nat
}

/// Whether every character of a sequence is a decimal digit.
pub open spec fn all_digits(s: Seq<char>) -> bool {
    forall|i: int| 0 <= i < s.len() ==> is_digit(#[trigger] s[i])
}

/// A canonical decimal rendering: at least one digit, no leading zero.
pub open spec fn canonical_dec(s: Seq<char>) -> bool {
    &&& s.len() >= 1
    &&& all_digits(s)
    &&& (s.len() > 1 ==> s[0] != '0')
}

/// The number a digit sequence denotes.
pub open spec fn dec_value(s: Seq<char>) -> nat
    decreases s.len(),
{
    if s.len() == 0 {
        0
    } else {
        dec_value(s.drop_last()) * 10 + digit_val(s.last())
    }
}

proof fn lemma_digit_bij(c: char)
    requires
        is_digit(c),
    ensures
        digit_val(c) < 10,
        digit_char(digit_val(c)) == c,
{
    if c as u32 == 48 {
        assert(c == '0');
    } else if c as u32 == 49 {
        assert(c == '1');
    } else if c as u32 == 50 {
        assert(c == '2');
    } else if c as u32 == 51 {
        assert(c == '3');
    } else if c as u32 == 52 {
        assert(c == '4');
    } else if c as u32 == 53 {
        assert(c == '5');
    } else if c as u32 == 54 {
        assert(c == '6');
    } else if c as u32 == 55 {
        assert(c == '7');
    } else if c as u32 == 56 {
        assert(c == '8');
    } else {
        assert(c == '9');
    }
}

proof fn lemma_digit_char_val(d: nat)
    requires
        d < 10,
    ensures
        is_digit(digit_char(d)),
        digit_val(digit_char(d)) == d,
{
}

/// The canonical rendering of a number is canonical and denotes the number.
pub proof fn lemma_spec_dec_canonical(n: nat)
    ensures
        canonical_dec(spec_dec(n)),
        dec_value(spec_dec(n)) == n,
    decreases n,
{
    if n < 10 {
        lemma_digit_char_val(n);
        let s = spec_dec(n);
        assert(s == seq![digit_char(n)]);
        assert(s[0] == digit_char(n));
        assert(s.last() == digit_char(n));
        assert(s.drop_last() =~= Seq::<char>::empty());
        assert(dec_value(s.drop_last()) == 0);
        assert(dec_value(s) == digit_val(digit_char(n)));
        assert(all_digits(s)) by {
            assert forall|i: int| 0 <= i < s.len() implies is_digit(#[trigger] s[i]) by {
                assert(s[i] == digit_char(n));
            }
        }
    } else {
        lemma_spec_dec_canonical(n / 10);
        lemma_digit_char_val(n % 10);
        let s = spec_dec(n);
        assert(s == spec_dec(n / 10).push(digit_char(n % 10)));
        assert(s.drop_last() =~= spec_dec(n / 10));
        assert(s.last() == digit_char(n % 10));
        assert(dec_value(s) == (n / 10) * 10 + n % 10);
        assert((n / 10) * 10 + n % 10 == n) by (nonlinear_arith);
        assert(s[0] == spec_dec(n / 10)[0]);
        let f = spec_dec(n / 10);
        if f.len() == 1 {
            assert(f.drop_last() =~= Seq::<char>::empty());
            assert(dec_value(f.drop_last()) == 0);
            assert(f.last() == f[0]);
            assert(digit_val(f[0]) == n / 10);
            assert(n / 10 >= 1);
            if f[0] == '0' {
                assert(digit_val(f[0]) == 0);
            }
        }
        assert(s[0] != '0');
        assert(all_digits(s)) by {
            assert forall|i: int| 0 <= i < s.len() implies is_digit(#[trigger] s[i]) by {
                if i < s.len() - 1 {
                    assert(s[i] == spec_dec(n / 10)[i]);
                } else {
                    assert(s[i] == digit_char(n % 10));
                }
            }
        }
    }
}

proof fn lemma_dec_value_min(s: Seq<char>)
    requires
        s.len() >= 1,
        all_digits(s),
        s[0] != '0',
    ensures
        dec_value(s) >= 1,
        s.len() >= 2 ==> dec_value(s) >= 10,
    decreases s.len(),
{
    if s.len() == 1 {
        assert(is_digit(s[0]));
        if digit_val(s[0]) == 0 {
            lemma_digit_bij(s[0]);
            assert(s[0] == '0');
        }
        assert(s.drop_last() =~= Seq::<char>::empty());
    } else {
        lemma_dec_value_min(s.drop_last());
    }
}

/// A canonical digit sequence is the canonical rendering of its value.
pub proof fn lemma_canonical_unique(s: Seq<char>)
    requires
        canonical_dec(s),
    ensures
        s == spec_dec(dec_value(s)),
    decreases s.len(),
{
    let n = dec_value(s);
    lemma_digit_bij(s.last());
    if s.len() == 1 {
        assert(s.drop_last() =~= Seq::<char>::empty());
        assert(dec_value(s.drop_last()) == 0);
        assert(n == digit_val(s.last()));
        assert(s =~= seq![digit_char(n)]);
    } else {
        let front = s.drop_last();
        assert(canonical_dec(front));
        lemma_canonical_unique(front);
        lemma_dec_value_min(front);
        assert(n == dec_value(front) * 10 + digit_val(s.last()));
        assert(n >= 10) by (nonlinear_arith)
            requires
                n == dec_value(front) * 10 + digit_val(s.last()),
                dec_value(front) >= 1,
        ;
        assert(n / 10 == dec_value(front) && n % 10 == digit_val(s.last())) by (nonlinear_arith)
            requires
                n == dec_value(front) * 10 + digit_val(s.last()),
                digit_val(s.last()) < 10,
        ;
        assert(s =~= spec_dec(n / 10).push(digit_char(n % 10)));
    }
}

/// The end of the run of digits starting at `i`.
pub open spec fn digit_run_end(s: Seq<char>, i: int) -> int
    decreases s.len() - i,
{
    if i < 0 || i >= s.len() {
        i
    } else if is_digit(s[i]) {
        digit_run_end(s, i + 1)
    } else {
        i
    }
}

proof fn lemma_digit_run_end_props(s: Seq<char>, i: int)
    requires
        0 <= i <= s.len(),
    ensures
        i <= digit_run_end(s, i) <= s.len(),
        forall|k: int| i <= k < digit_run_end(s, i) ==> is_digit(#[trigger] s[k]),
        digit_run_end(s, i) < s.len() ==> !is_digit(s[digit_run_end(s, i)]),
    decreases s.len() - i,
{
    if i < s.len() && is_digit(s[i]) {
        lemma_digit_run_end_props(s, i + 1);
    }
}

/// Parses a state directory name of the shape
/// `fitm-gen{generation}-state{state_id}`, with both numbers in canonical
/// decimal and fitting a machine word.
pub open spec fn spec_parse_state_path(s: Seq<char>) -> Option<(u64, u64)> {
    if s.len() < 8 || s.subrange(0, 8) != "fitm-gen"@ {
        None
    } else {
        let e1 = digit_run_end(s, 8);
        let run1 = s.subrange(8, e1);
        if !canonical_dec(run1) || dec_value(run1) > u64::MAX {
            None
        } else if e1 + 6 > s.len() || s.subrange(e1, e1 + 6) != "-state"@ {
            None
        } else {
            let e2 = digit_run_end(s, e1 + 6);
            let run2 = s.subrange(e1 + 6, e2);
            if e2 != s.len() || !canonical_dec(run2) || dec_value(run2) > u64::MAX {
                None
            } else {
                Some((dec_value(run1) as u64, dec_value(run2) as u64))
            }
        }
    }
}

/// A parsed name is exactly the canonical name of what it parsed to.
pub proof fn lemma_parse_state_path_sound(s: Seq<char>, g: u64, id: u64)
    requires
        spec_parse_state_path(s) == Some((g, id)),
    ensures
        s == spec_state_path(g as nat, id as nat),
{
    let e1 = digit_run_end(s, 8);
    lemma_digit_run_end_props(s, 8);
    let run1 = s.subrange(8, e1);
    let e2 = digit_run_end(s, e1 + 6);
    lemma_digit_run_end_props(s, e1 + 6);
    let run2 = s.subrange(e1 + 6, e2);
    lemma_canonical_unique(run1);
    lemma_canonical_unique(run2);
    assert(run1 == spec_dec(g as nat));
    assert(run2 == spec_dec(id as nat));
    assert(s =~= s.subrange(0, 8) + run1 + s.subrange(e1, e1 + 6) + run2);
}

/// Parsing inverts rendering: every canonical name parses back to its
/// generation and state id.
pub proof fn lemma_state_path_roundtrip(g: u64, id: u64)
    ensures
        spec_parse_state_path(spec_state_path(g as nat, id as nat)) == Some((g, id)),
{
    let s = spec_state_path(g as nat, id as nat);
    let p = "fitm-gen"@;
    let mid = "-state"@;
    let d1 = spec_dec(g as nat);
    let d2 = spec_dec(id as nat);
    lemma_spec_dec_canonical(g as nat);
    lemma_spec_dec_canonical(id as nat);
    reveal_strlit("fitm-gen");
    reveal_strlit("-state");
    assert(p.len() == 8);
    assert(mid.len() == 6);
    assert(s.subrange(0, 8) =~= p);
    let e1 = 8 + d1.len() as int;
    assert(s.subrange(8, e1) =~= d1);
    assert(s.subrange(e1, e1 + 6) =~= mid);
    let e2 = e1 + 6 + d2.len() as int;
    assert(s.subrange(e1 + 6, e2) =~= d2);
    assert(e2 == s.len());
    assert(!is_digit(mid[0]));
    lemma_digit_run_to(s, 8, e1);
    assert(digit_run_end(s, 8) == e1);
    lemma_digit_run_to(s, e1 + 6, e2);
    assert(digit_run_end(s, e1 + 6) == e2);
}

proof fn lemma_digit_run_to(s: Seq<char>, i: int, e: int)
    requires
        0 <= i <= e <= s.len(),
        forall|k: int| i <= k < e ==> is_digit(#[trigger] s[k]),
        e < s.len() ==> !is_digit(s[e]),
    ensures
        digit_run_end(s, i) == e,
    decreases e - i,
{
    if i < e {
        lemma_digit_run_to(s, i + 1, e);
    }
}


fn scan_digit_run(name: &str, start: usize, total: usize) -> (e: usize)
    requires
        total == name@.len(),
        start <= total,
    ensures
        e == digit_run_end(name@, start as int),
        start <= e <= total,
{
    proof {
        lemma_digit_run_end_props(name@, start as int);
    }
    let mut j: usize = start;
    loop
        invariant
            start <= j <= total,
            total == name@.len(),
            digit_run_end(name@, j as int) == digit_run_end(name@, start as int),
        decreases total - j,
    {
        if j >= total {
            return j;
        }
        let u = name.get_char(j) as u32;
        if !(48 <= u && u <= 57) {
            return j;
        }
        proof {
            assert(is_digit(name@[j as int]));
        }
        j += 1;
    }
}

fn parse_dec_value(name: &str, start: usize, e: usize) -> (r: Option<u64>)
    requires
        start < e <= name@.len(),
        forall|k: int| start <= k < e ==> is_digit(#[trigger] name@[k]),
    ensures
        r is Some ==> r.unwrap() == dec_value(name@.subrange(start as int, e as int)),
        r is None ==> dec_value(name@.subrange(start as int, e as int)) > u64::MAX,
{
    let ghost s = name@;
    let mut val: u64 = 0;
    let mut j: usize = start;
    while j < e
        invariant
            start <= j <= e <= s.len(),
            s == name@,
            forall|k: int| start <= k < e ==> is_digit(#[trigger] s[k]),
            val == dec_value(s.subrange(start as int, j as int)),
        decreases e - j,
    {
        let c = name.get_char(j);
        let d64 = (c as u32 - 48) as u64;
        proof {
            assert(is_digit(s[j as int]));
            assert(d64 == digit_val(s[j as int]));
            assert(d64 <= 9);
        }
        if val <= (u64::MAX - d64) / 10 {
            proof {
                assert(val * 10 + d64 <= u64::MAX) by (nonlinear_arith)
                    requires
                        val <= (u64::MAX - d64) / 10,
                        d64 <= 9,
                ;
            }
            val = val * 10 + d64;
            j += 1;
            proof {
                assert(s.subrange(start as int, j as int).drop_last() =~= s.subrange(
                    start as int,
                    j - 1,
                ));
                assert(s.subrange(start as int, j as int).last() == s[j - 1]);
            }
        } else {
            proof {
                let part = s.subrange(start as int, j + 1);
                assert(part.drop_last() =~= s.subrange(start as int, j as int));
                assert(part.last() == s[j as int]);
                assert(dec_value(part) == val * 10 + d64);
                assert(val * 10 + d64 > u64::MAX) by (nonlinear_arith)
                    requires
                        val > (u64::MAX - d64) / 10,
                        d64 <= 9,
                ;
                lemma_dec_run_prefix_le(s, start as int, j + 1, e as int);
            }
            return None;
        }
    }
    proof {
        assert(s.subrange(start as int, e as int) == s.subrange(start as int, j as int));
    }
    Some(val)
}

proof fn lemma_dec_run_prefix_le(s: Seq<char>, start: int, j: int, e: int)
    requires
        0 <= start <= j <= e <= s.len(),
    ensures
        dec_value(s.subrange(start, j)) <= dec_value(s.subrange(start, e)),
    decreases e - j,
{
    if j < e {
        lemma_dec_run_prefix_le(s, start, j + 1, e);
        let a = s.subrange(start, j);
        let b = s.subrange(start, j + 1);
        assert(b.drop_last() =~= a);
        assert(dec_value(b) == dec_value(a) * 10 + digit_val(b.last()));
        assert(dec_value(a) <= dec_value(a) * 10) by (nonlinear_arith);
    }
}

/// Parses a state directory name `fitm-gen{generation}-state{state_id}`.
/// Names of any other shape, and numbers with leading zeros or beyond a
/// machine word, are rejected.
pub fn parse_state_path(name: &str) -> (r: Option<(u64, u64)>)
    ensures
        r == spec_parse_state_path(name@),
{
    proof {
        reveal_strlit("fitm-gen");
        reveal_strlit("-state");
    }
    let total = name.unicode_len();
    if total < 8 {
        return None;
    }
    if !(name.get_char(0) == 'f' && name.get_char(1) == 'i' && name.get_char(2) == 't'
        && name.get_char(3) == 'm' && name.get_char(4) == '-' && name.get_char(5) == 'g'
        && name.get_char(6) == 'e' && name.get_char(7) == 'n') {
        proof {
            let sub = name@.subrange(0, 8);
            assert(sub[0] == name@[0] && sub[1] == name@[1] && sub[2] == name@[2] && sub[3]
                == name@[3] && sub[4] == name@[4] && sub[5] == name@[5] && sub[6] == name@[6]
                && sub[7] == name@[7]);
            if sub == "fitm-gen"@ {
                assert(name@[0] == 'f' && name@[1] == 'i' && name@[2] == 't' && name@[3] == 'm'
                    && name@[4] == '-' && name@[5] == 'g' && name@[6] == 'e' && name@[7] == 'n');
            }
        }
        return None;
    }
    proof {
        assert(name@.subrange(0, 8) =~= "fitm-gen"@);
    }

    let e1 = scan_digit_run(name, 8, total);
    proof {
        lemma_digit_run_end_props(name@, 8);
    }
    if e1 == 8 {
        proof {
            assert(!canonical_dec(name@.subrange(8, e1 as int)));
        }
        return None;
    }
    if e1 - 8 > 1 && name.get_char(8) == '0' {
        proof {
            assert(name@.subrange(8, e1 as int)[0] == '0');
            assert(!canonical_dec(name@.subrange(8, e1 as int)));
        }
        return None;
    }
    proof {
        assert forall|k: int| 0 <= k < e1 - 8 implies is_digit(
            #[trigger] name@.subrange(8, e1 as int)[k],
        ) by {
            assert(name@.subrange(8, e1 as int)[k] == name@[8 + k]);
        }
        assert(canonical_dec(name@.subrange(8, e1 as int)));
    }
    let g = match parse_dec_value(name, 8, e1) {
        Some(v) => v,
        None => {
            return None;
        },
    };

    if e1 > total - 6 {
        return None;
    }
    if !(name.get_char(e1) == '-' && name.get_char(e1 + 1) == 's' && name.get_char(e1 + 2) == 't'
        && name.get_char(e1 + 3) == 'a' && name.get_char(e1 + 4) == 't' && name.get_char(e1 + 5)
        == 'e') {
        proof {
            let sub = name@.subrange(e1 as int, e1 + 6);
            assert(sub[0] == name@[e1 as int] && sub[1] == name@[e1 + 1] && sub[2] == name@[e1 + 2]
                && sub[3] == name@[e1 + 3] && sub[4] == name@[e1 + 4] && sub[5] == name@[e1 + 5]);
            if sub == "-state"@ {
                assert(name@[e1 as int] == '-' && name@[e1 + 1] == 's' && name@[e1 + 2] == 't'
                    && name@[e1 + 3] == 'a' && name@[e1 + 4] == 't' && name@[e1 + 5] == 'e');
            }
        }
        return None;
    }
    proof {
        assert(name@.subrange(e1 as int, e1 + 6) =~= "-state"@);
    }

    let e2 = scan_digit_run(name, e1 + 6, total);
    proof {
        lemma_digit_run_end_props(name@, e1 + 6);
    }
    if e2 != total || e2 == e1 + 6 {
        proof {
            if e2 == e1 + 6 {
                assert(!canonical_dec(name@.subrange(e1 + 6, e2 as int)));
            }
        }
        return None;
    }
    if e2 - (e1 + 6) > 1 && name.get_char(e1 + 6) == '0' {
        proof {
            assert(name@.subrange(e1 + 6, e2 as int)[0] == '0');
            assert(!canonical_dec(name@.subrange(e1 + 6, e2 as int)));
        }
        return None;
    }
    proof {
        assert forall|k: int| 0 <= k < e2 - (e1 + 6) implies is_digit(
            #[trigger] name@.subrange(e1 + 6, e2 as int)[k],
        ) by {
            assert(name@.subrange(e1 + 6, e2 as int)[k] == name@[e1 + 6 + k]);
        }
        assert(canonical_dec(name@.subrange(e1 + 6, e2 as int)));
    }
    let id = match parse_dec_value(name, e1 + 6, e2) {
        Some(v) => v,
        None => {
            return None;
        },
    };
    Some((g, id))
}

/// Whether a directory name is a state path of one of the given generations.
pub fn state_dir_matches(name: &str, gens: &Vec<u64>) -> (r: bool)
    ensures
        r == (spec_parse_state_path(name@) is Some && gens@.contains(
            spec_parse_state_path(name@).unwrap().0,
        )),
{
    let parsed = parse_state_path(name);
    match parsed {
        Some((g, sid)) => {
            proof {
                assert(spec_parse_state_path(name@) == Some((g, sid)));
            }
            let mut i: usize = 0;
            while i < gens.len()
                invariant
                    i <= gens.len(),
                    spec_parse_state_path(name@) == Some((g, sid)),
                    forall|k: int| 0 <= k < i ==> gens@[k] != g,
                decreases gens.len() - i,
            {
                if gens[i] == g {
                    proof {
                        assert(gens@[i as int] == g);
                        assert(gens@.contains(g));
                    }
                    return true;
                }
                i += 1;
            }
            false
        },
        None => false,
    }
}

} // verus!
