//! The truth-table enumerator: collects the distinct uppercase variable
//! letters of a formula in first-occurrence order, then for every assignment
//! of bits to those letters builds the grounded formula text and evaluates
//! it, one row per assignment in binary counting order.

use vstd::prelude::*;
use vstd::string::*;
use vstd::arithmetic::power2::{pow2, lemma_pow2_pos, lemma_pow2_strictly_increases, lemma2_to64};
use vstd::set_lib::{lemma_len_subset, lemma_int_range, set_int_range};
use crate::ast::{FormulaError, is_uppercase_letter, push_char};
use crate::rpn::{eval_chars, eval_spec, eval_formula};

verus! {

/// The distinct uppercase letters of a piece of text, each kept at its
/// first occurrence, in left-to-right order.
pub open spec fn distinct_letters(s: Seq<char>) -> Seq<char>
    decreases s.len(),
{
    if s.len() == 0 {
        Seq::empty()
    } else {
        let prefix = distinct_letters(s.drop_last());
        let c = s.last();
        if is_uppercase_letter(c) && !prefix.contains(c) {
            prefix.push(c)
        } else {
            prefix
        }
    }
}

/// Bit `b` of an assignment index, counting from the least significant.
pub open spec fn assign_bit(i: nat, b: nat) -> bool {
    (i / pow2(b)) % 2 == 1
}

/// The assignment row for index `i` over `k` letters: the letter at
/// position `j` receives bit `k - 1 - j` of `i`, so the first letter is the
/// most significant and row 0 is the all-false assignment.
pub open spec fn row_bits(i: nat, k: nat) -> Seq<bool> {
    Seq::new(k, |j: int| assign_bit(i, (k - 1 - j) as nat))
}

/// The grounded text of a formula under assignment index `i`: every
/// occurrence of a collected letter is replaced by its assigned bit
/// character, and every other character stands unchanged.
pub open spec fn ground(s: Seq<char>, letters: Seq<char>, i: nat) -> Seq<char> {
    Seq::new(
        s.len(),
        |p: int|
            if letters.contains(s[p]) {
                if assign_bit(i, (letters.len() - 1 - letters.index_of(s[p])) as nat) {
                    '1'
                } else {
                    '0'
                }
            } else {
                s[p]
            },
    )
}

/// A computed truth table: the variable letters in first-occurrence order,
/// and one row per assignment, each row holding the letters' bits followed
/// by the evaluation result.
pub struct TruthTable {
    pub variables: Vec<char>,
    pub rows: Vec<Vec<bool>>,
}

/// The collected letters hold no duplicates, hold only uppercase letters,
/// and hold exactly the uppercase letters of the text.
pub proof fn lemma_distinct_letters_props(s: Seq<char>)
    ensures
        distinct_letters(s).no_duplicates(),
        forall|t: int|
            0 <= t < distinct_letters(s).len() ==> is_uppercase_letter(
                #[trigger] distinct_letters(s)[t],
            ),
        forall|c: char|
            #[trigger] distinct_letters(s).contains(c) <==> (s.contains(c)
                && is_uppercase_letter(c)),
    decreases s.len(),
{
    if s.len() == 0 {
        assert forall|c: char| #[trigger] s.contains(c) implies false by {
            let w = choose|w: int| 0 <= w < s.len() && s[w] == c;
        }
    } else {
        let pre = s.drop_last();
        lemma_distinct_letters_props(pre);
        assert forall|c: char| #[trigger] s.contains(c) implies pre.contains(c) || c
            == s.last() by {
            let w = choose|w: int| 0 <= w < s.len() && s[w] == c;
            if w < s.len() - 1 {
                assert(pre[w] == c);
            }
        }
        assert forall|c: char| pre.contains(c) implies s.contains(c) by {
            let w = choose|w: int| 0 <= w < pre.len() && pre[w] == c;
            assert(s[w] == c);
        }
        assert(s.contains(s.last())) by {
            assert(s[s.len() - 1] == s.last());
        }
        let d = distinct_letters(s);
        let dp = distinct_letters(pre);
        if is_uppercase_letter(s.last()) && !dp.contains(s.last()) {
            assert forall|c: char| #[trigger] d.contains(c) implies dp.contains(c) || c
                == s.last() by {
                let w = choose|w: int| 0 <= w < d.len() && d[w] == c;
                if w < d.len() - 1 {
                    assert(dp[w] == c);
                }
            }
            assert forall|c: char| dp.contains(c) implies d.contains(c) by {
                let w = choose|w: int| 0 <= w < dp.len() && dp[w] == c;
                assert(d[w] == c);
            }
            assert(d.contains(s.last())) by {
                assert(d[d.len() - 1] == s.last());
            }
            assert(d.drop_last() =~= dp);
        }
    }
}

/// No more letters can be collected than the alphabet holds.
pub proof fn lemma_letters_bound(letters: Seq<char>)
    requires
        letters.no_duplicates(),
        forall|t: int| 0 <= t < letters.len() ==> is_uppercase_letter(#[trigger] letters[t]),
    ensures
        letters.len() <= 26,
{
    let ints = letters.map_values(|c: char| (c as u32) as int);
    assert(ints.no_duplicates()) by {
        assert forall|a: int, b: int|
            (0 <= a < ints.len() && 0 <= b < ints.len() && a != b) implies ints[a]
            != ints[b] by {
            assert(letters[a] != letters[b]);
            vstd::utf8::char_u32_cast(letters[a], letters[a] as u32);
            vstd::utf8::char_u32_cast(letters[b], letters[b] as u32);
            if ints[a] == ints[b] {
                assert(letters[a] as u32 == letters[b] as u32);
                assert((letters[a] as u32) as char == (letters[b] as u32) as char);
            }
        }
    }
    ints.unique_seq_to_set();
    assert(ints.to_set().subset_of(set_int_range(65, 91))) by {
        assert forall|x: int| #[trigger] ints.to_set().contains(x) implies set_int_range(
            65,
            91,
        ).contains(x) by {
            assert(ints.contains(x));
            let w = choose|w: int| 0 <= w < ints.len() && ints[w] == x;
            assert(ints[w] == (letters[w] as u32) as int);
            assert(is_uppercase_letter(letters[w]));
            assert(65 <= x < 91);
        }
    }
    lemma_int_range(65, 91);
    lemma_len_subset(ints.to_set(), set_int_range(65, 91));
}

/// Evaluation reports only the evaluator's own failures, never a missing
/// variable: the truth table's diagnostic is its alone.
proof fn lemma_eval_not_no_free_variables(s: Seq<char>, stack: Seq<bool>)
    ensures
        eval_chars(s, stack) != Err::<bool, FormulaError>(FormulaError::NoFreeVariables),
    decreases s.len(),
{
    if s.len() != 0 {
        let c = s[0];
        let rest = s.subrange(1, s.len() as int);
        if crate::ast::is_digit_char(c) {
            lemma_eval_not_no_free_variables(rest, stack.push(c == '1'));
        } else if stack.len() >= 1 && c == '!' {
            lemma_eval_not_no_free_variables(rest, stack.drop_last().push(!stack.last()));
        } else if stack.len() >= 2 {
            let right = stack.last();
            let left = stack.drop_last().last();
            let popped = stack.drop_last().drop_last();
            if c == '&' {
                lemma_eval_not_no_free_variables(rest, popped.push(left && right));
            } else if c == '|' {
                lemma_eval_not_no_free_variables(rest, popped.push(left || right));
            } else if c == '^' {
                lemma_eval_not_no_free_variables(rest, popped.push(left != right));
            } else if c == '>' {
                lemma_eval_not_no_free_variables(rest, popped.push(!left || right));
            } else if c == '=' {
                lemma_eval_not_no_free_variables(rest, popped.push(left == right));
            }
        }
    }
}

/// Whether a vector of characters holds a given one.
fn contains_char(v: &Vec<char>, c: char) -> (b: bool)
    ensures
        b == v@.contains(c),
{
    let mut j: usize = 0;
    while j < v.len()
        invariant
            j <= v@.len(),
            forall|t: int| 0 <= t < j ==> v@[t] != c,
        decreases v@.len() - j,
    {
        if v[j] == c {
            return true;
        }
        j += 1;
    }
    false
}

/// The first position of a character in a vector, if it occurs.
fn index_of_char(v: &Vec<char>, c: char) -> (r: Option<usize>)
    ensures
        match r {
            Some(j) => j < v@.len() && v@[j as int] == c,
            None => !v@.contains(c),
        },
{
    let mut j: usize = 0;
    while j < v.len()
        invariant
            j <= v@.len(),
            forall|t: int| 0 <= t < j ==> v@[t] != c,
        decreases v@.len() - j,
    {
        if v[j] == c {
            return Some(j);
        }
        j += 1;
    }
    None
}

/// Collects the distinct uppercase letters of a formula, in
/// first-occurrence left-to-right order.
fn collect_letters(formula: &str) -> (letters: Vec<char>)
    ensures
        letters@ == distinct_letters(formula@),
{
    let n = formula.unicode_len();
    let mut letters: Vec<char> = Vec::new();
    let mut i: usize = 0;
    proof {
        assert(formula@.subrange(0, 0) =~= Seq::<char>::empty());
    }
    while i < n
        invariant
            i <= n,
            n == formula@.len(),
            letters@ == distinct_letters(formula@.subrange(0, i as int)),
        decreases n - i,
    {
        let c = formula.get_char(i);
        proof {
            let cur = formula@.subrange(0, i + 1);
            assert(cur.drop_last() =~= formula@.subrange(0, i as int));
            assert(cur.last() == c);
        }
        let u = c as u32;
        if 65 <= u && u <= 90 {
            if !contains_char(&letters, c) {
                letters.push(c);
            }
        }
        i += 1;
    }
    proof {
        assert(formula@.subrange(0, n as int) =~= formula@);
    }
    letters
}

/// Two raised to a small power.
fn pow2_usize(e: usize) -> (r: usize)
    requires
        pow2(e as nat) <= usize::MAX,
    ensures
        r as nat == pow2(e as nat),
{
    let mut r: usize = 1;
    let mut t: usize = 0;
    proof {
        lemma2_to64();
    }
    while t < e
        invariant
            t <= e,
            r as nat == pow2(t as nat),
            pow2(e as nat) <= usize::MAX,
        decreases e - t,
    {
        proof {
            assert(pow2((t + 1) as nat) == 2 * pow2(t as nat)) by {
                vstd::arithmetic::power2::lemma_pow2_adds(t as nat, 1);
                lemma2_to64();
            }
            if t + 1 < e {
                lemma_pow2_strictly_increases((t + 1) as nat, e as nat);
            }
        }
        r = r * 2;
        t += 1;
    }
    r
}

/// Builds the grounded text of a formula under assignment index `i`:
/// every occurrence of a collected letter becomes its assigned bit
/// character, everything else is copied as it is.
fn ground_formula(formula: &str, letters: &Vec<char>, i: usize) -> (r: String)
    requires
        letters@.no_duplicates(),
        letters@.len() <= 26,
    ensures
        r@ == ground(formula@, letters@, i as nat),
{
    let n = formula.unicode_len();
    let mut out = String::new();
    let mut p: usize = 0;
    while p < n
        invariant
            p <= n,
            n == formula@.len(),
            letters@.no_duplicates(),
            letters@.len() <= 26,
            out@.len() == p,
            forall|q: int| 0 <= q < p ==> out@[q] == ground(formula@, letters@, i as nat)[q],
        decreases n - p,
    {
        let c = formula.get_char(p);
        match index_of_char(letters, c) {
            Some(j) => {
                proof {
                    assert(letters@.contains(c)) by {
                        assert(letters@[j as int] == c);
                    }
                    let io = letters@.index_of(c);
                    assert(0 <= io < letters@.len() && letters@[io] == c);
                    assert(j as int == io);
                    lemma2_to64();
                    if (letters@.len() - 1 - j) < 26 {
                        lemma_pow2_strictly_increases((letters@.len() - 1 - j as int) as nat, 26);
                    }
                }
                let e = letters.len() - 1 - j;
                let pw = pow2_usize(e);
                proof {
                    lemma_pow2_pos(e as nat);
                }
                let bit = (i / pw) % 2 == 1;
                push_char(&mut out, if bit { '1' } else { '0' });
            },
            None => {
                push_char(&mut out, c);
            },
        }
        p += 1;
    }
    proof {
        assert(out@ =~= ground(formula@, letters@, i as nat));
    }
    out
}

/// Enumerates the truth table of a formula. The distinct uppercase letters
/// are collected in first-occurrence order; when there are none the
/// enumeration fails with `NoFreeVariables`. Otherwise, for every
/// assignment index from 0 to two to the number of letters, the formula is
/// grounded textually and evaluated, and the table holds one row per index
/// in counting order: the assigned bits (the first letter carrying the most
/// significant bit) followed by the evaluation result. A failed evaluation
/// of any grounded instance fails the whole enumeration with that error.
pub fn truth_table(formula: &str) -> (r: Result<TruthTable, FormulaError>)
    ensures
        ({
            let letters = distinct_letters(formula@);
            let k = letters.len();
            &&& (r == Err::<TruthTable, FormulaError>(FormulaError::NoFreeVariables) <==> k == 0)
            &&& match r {
                Ok(table) => {
                    &&& table.variables@ == letters
                    &&& table.rows@.len() == pow2(k)
                    &&& forall|t: int|
                        0 <= t < pow2(k) ==> #[trigger] eval_spec(
                            ground(formula@, letters, t as nat),
                        ) is Ok
                    &&& forall|t: int|
                        0 <= t < pow2(k) ==> #[trigger] table.rows@[t]@ == row_bits(
                            t as nat,
                            k,
                        ).push(eval_spec(ground(formula@, letters, t as nat))->Ok_0)
                },
                Err(e) => k == 0 || exists|t: nat|
                    t < pow2(k) && #[trigger] eval_spec(ground(formula@, letters, t))
                        == Err::<bool, FormulaError>(e),
            }
        }),
{
    let letters = collect_letters(formula);
    proof {
        lemma_distinct_letters_props(formula@);
        lemma_letters_bound(letters@);
    }
    let k = letters.len();
    if k == 0 {
        return Err(FormulaError::NoFreeVariables);
    }
    proof {
        lemma2_to64();
        if (k as nat) < 26 {
            lemma_pow2_strictly_increases(k as nat, 26);
        }
    }
    let count = pow2_usize(k);
    let mut rows: Vec<Vec<bool>> = Vec::new();
    let mut i: usize = 0;
    while i < count
        invariant
            1 <= k <= 26,
            k == letters@.len(),
            letters@ == distinct_letters(formula@),
            letters@.no_duplicates(),
            count as nat == pow2(k as nat),
            i <= count,
            rows@.len() == i,
            forall|t: int|
                0 <= t < i ==> #[trigger] eval_spec(
                    ground(formula@, letters@, t as nat),
                ) is Ok,
            forall|t: int|
                0 <= t < i ==> #[trigger] rows@[t]@ == row_bits(t as nat, k as nat).push(
                    eval_spec(ground(formula@, letters@, t as nat))->Ok_0,
                ),
        decreases count - i,
    {
        let mut row: Vec<bool> = Vec::new();
        let mut j: usize = 0;
        while j < k
            invariant
                1 <= k <= 26,
                k == letters@.len(),
                j <= k,
                row@.len() == j,
                forall|q: int|
                    0 <= q < j ==> #[trigger] row@[q] == assign_bit(
                        i as nat,
                        (k - 1 - q) as nat,
                    ),
            decreases k - j,
        {
            let e = k - 1 - j;
            proof {
                lemma2_to64();
                if (e as nat) < 26 {
                    lemma_pow2_strictly_increases(e as nat, 26);
                }
            }
            let pw = pow2_usize(e);
            proof {
                lemma_pow2_pos(e as nat);
            }
            row.push((i / pw) % 2 == 1);
            j += 1;
        }
        let grounded = ground_formula(formula, &letters, i);
        let value = match eval_formula(grounded.as_str()) {
            Ok(v) => v,
            Err(e) => {
                proof {
                    let ls = distinct_letters(formula@);
                    assert(grounded@ == ground(formula@, letters@, i as nat));
                    assert(eval_spec(grounded@) == Err::<bool, FormulaError>(e));
                    assert(ls == letters@);
                    assert(eval_spec(ground(formula@, ls, i as nat)) == Err::<
                        bool,
                        FormulaError,
                    >(e));
                    lemma_eval_not_no_free_variables(ground(formula@, ls, i as nat), Seq::empty());
                    assert(exists|t: nat|
                        t < pow2(ls.len()) && #[trigger] eval_spec(
                            ground(formula@, ls, t),
                        ) == Err::<bool, FormulaError>(e)) by {
                        assert((i as nat) < pow2(ls.len()) && eval_spec(
                            ground(formula@, ls, i as nat),
                        ) == Err::<bool, FormulaError>(e));
                    }
                }
                return Err(e);
            },
        };
        row.push(value);
        proof {
            assert(row@ =~= row_bits(i as nat, k as nat).push(value));
        }
        rows.push(row);
        i += 1;
    }
    proof {
        let ls = distinct_letters(formula@);
        assert(letters@ == ls);
        assert(rows@.len() == pow2(ls.len()));
        assert(forall|t: int|
            0 <= t < pow2(ls.len()) ==> #[trigger] eval_spec(
                ground(formula@, ls, t as nat),
            ) is Ok);
        assert(forall|t: int|
            0 <= t < pow2(ls.len()) ==> #[trigger] rows@[t]@ == row_bits(t as nat, ls.len()).push(
                eval_spec(ground(formula@, ls, t as nat))->Ok_0,
            ));
    }
    Ok(TruthTable { variables: letters, rows })
}

/// Bit `b + 1` of an index is bit `b` of its half.
proof fn lemma_assign_bit_shift(i: nat, b: nat)
    ensures
        assign_bit(i, b + 1) == assign_bit(i / 2, b),
{
    lemma2_to64();
    vstd::arithmetic::power2::lemma_pow2_adds(1, b);
    lemma_pow2_pos(b);
    vstd::arithmetic::div_mod::lemma_div_denominator(i as int, 2, pow2(b) as int);
}

/// Two different indices below two to the `k` differ in some bit below `k`.
proof fn lemma_bits_differ(k: nat, i: nat, j: nat)
    requires
        i < pow2(k),
        j < pow2(k),
        i != j,
    ensures
        exists|b: nat| b < k && (#[trigger] assign_bit(i, b)) != assign_bit(j, b),
    decreases k,
{
    lemma2_to64();
    if k == 0 {
        assert(i == 0 && j == 0);
    } else if i % 2 != j % 2 {
        assert(assign_bit(i, 0) == (i % 2 == 1));
        assert(assign_bit(j, 0) == (j % 2 == 1));
        assert(0 < k && assign_bit(i, 0) != assign_bit(j, 0));
    } else {
        vstd::arithmetic::div_mod::lemma_fundamental_div_mod(i as int, 2);
        vstd::arithmetic::div_mod::lemma_fundamental_div_mod(j as int, 2);
        assert(i / 2 != j / 2);
        vstd::arithmetic::power2::lemma_pow2_adds(1, (k - 1) as nat);
        assert(i / 2 < pow2((k - 1) as nat) && j / 2 < pow2((k - 1) as nat));
        lemma_bits_differ((k - 1) as nat, i / 2, j / 2);
        let b = choose|b: nat|
            b < (k - 1) as nat && (#[trigger] assign_bit(i / 2, b)) != assign_bit(j / 2, b);
        lemma_assign_bit_shift(i, b);
        lemma_assign_bit_shift(j, b);
        assert(b + 1 < k && assign_bit(i, b + 1) != assign_bit(j, b + 1));
    }
}

/// The assignment rows of two different indices below two to the `k` are
/// different: with the enumerator's contract, the bit prefixes of all its
/// rows are pairwise distinct.
pub proof fn lemma_rows_pairwise_distinct(k: nat, i: nat, j: nat)
    requires
        i < pow2(k),
        j < pow2(k),
        i != j,
    ensures
        row_bits(i, k) != row_bits(j, k),
{
    lemma_bits_differ(k, i, j);
    let b = choose|b: nat| b < k && (#[trigger] assign_bit(i, b)) != assign_bit(j, b);
    let pos: int = k - 1 - b;
    assert(row_bits(i, k)[pos] == assign_bit(i, b));
    assert(row_bits(j, k)[pos] == assign_bit(j, b));
}

/// The assignment index whose row is a given bit vector, read most
/// significant bit first.
pub open spec fn index_of_bits(bv: Seq<bool>) -> nat
    decreases bv.len(),
{
    if bv.len() == 0 {
        0
    } else {
        2 * index_of_bits(bv.drop_last()) + if bv.last() {
            1nat
        } else {
            0nat
        }
    }
}

/// Every bit vector of length `k` is the assignment row of some index
/// below two to the `k`: with the enumerator's contract and the pairwise
/// distinctness of rows, the rows enumerate all combinations exactly once.
pub proof fn lemma_rows_complete(bv: Seq<bool>)
    ensures
        index_of_bits(bv) < pow2(bv.len()),
        row_bits(index_of_bits(bv), bv.len()) == bv,
    decreases bv.len(),
{
    let k = bv.len();
    lemma2_to64();
    if k == 0 {
        assert(row_bits(0, 0) =~= bv);
    } else {
        let pre = bv.drop_last();
        lemma_rows_complete(pre);
        let ih = index_of_bits(pre);
        let idx = index_of_bits(bv);
        let r: int = if bv.last() {
            1int
        } else {
            0int
        };
        vstd::arithmetic::power2::lemma_pow2_adds(1, (k - 1) as nat);
        assert(idx < pow2(k));
        vstd::arithmetic::div_mod::lemma_fundamental_div_mod_converse(
            idx as int,
            2,
            ih as int,
            r,
        );
        assert(idx / 2 == ih);
        assert(idx % 2 == r);
        assert forall|j: int| 0 <= j < k implies row_bits(idx, k)[j] == bv[j] by {
            if j == k - 1 {
                assert(assign_bit(idx, 0) == (idx % 2 == 1));
                assert(row_bits(idx, k)[j] == bv[j]);
            } else {
                lemma_assign_bit_shift(idx, (k - 2 - j) as nat);
                assert(row_bits(ih, (k - 1) as nat)[j] == pre[j]);
                assert(row_bits(idx, k)[j] == assign_bit(idx, (k - 1 - j) as nat));
                assert(assign_bit(idx, (k - 1 - j) as nat) == assign_bit(
                    ih,
                    (k - 2 - j) as nat,
                ));
            }
        }
        assert(row_bits(idx, k) =~= bv);
    }
}

} // verus!
