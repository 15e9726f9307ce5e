use vstd::prelude::*;
use vstd::string::{StrSliceExecFns, StringExecFns};

verus! {

/// The digit character of `n` in 1..=9.
pub open spec fn digit_char(n: nat) -> char {
    if n == 1 {
        '1'
    } else if n == 2 {
        '2'
    } else if n == 3 {
        '3'
    } else if n == 4 {
        '4'
    } else if n == 5 {
        '5'
    } else if n == 6 {
        '6'
    } else if n == 7 {
        '7'
    } else if n == 8 {
        '8'
    } else {
        '9'
    }
}

/// `s` without its trailing `+` characters.
pub open spec fn trim_trailing_plus(s: Seq<char>) -> Seq<char>
    decreases s.len(),
{
    if s.len() > 0 && s.last() == '+' {
        trim_trailing_plus(s.drop_last())
    } else {
        s
    }
}

/// Whether the numbered-shortcut modifier selects function keys (it ends in `F`).
pub open spec fn is_f_key_modifier(modifier: Seq<char>) -> bool {
    modifier.len() > 0 && modifier.last() == 'F'
}

/// The descriptor of numbered shortcut `n`: `<modifier>+<n>`, or, for a
/// modifier ending in `F`, `F<n>` behind what precedes the `F` (trailing `+`
/// dropped).
pub open spec fn number_descriptor(modifier: Seq<char>, n: nat) -> Seq<char> {
    let digit = seq![digit_char(n)];
    if is_f_key_modifier(modifier) {
        let prefix = trim_trailing_plus(modifier.drop_last());
        if prefix.len() == 0 {
            seq!['F'] + digit
        } else {
            prefix + seq!['+', 'F'] + digit
        }
    } else {
        modifier + seq!['+'] + digit
    }
}

/// The action id of numbered shortcut `n`.
pub open spec fn number_id(n: nat) -> Seq<char> {
    "number_"@ + seq![digit_char(n)]
}

fn digit_str(n: u8) -> (r: &'static str)
    requires
        1 <= n <= 9,
    ensures
        r@ == seq![digit_char(n as nat)],
{
    let r = if n == 1 {
        "1"
    } else if n == 2 {
        "2"
    } else if n == 3 {
        "3"
    } else if n == 4 {
        "4"
    } else if n == 5 {
        "5"
    } else if n == 6 {
        "6"
    } else if n == 7 {
        "7"
    } else if n == 8 {
        "8"
    } else {
        "9"
    };
    proof {
        reveal_strlit("1");
        reveal_strlit("2");
        reveal_strlit("3");
        reveal_strlit("4");
        reveal_strlit("5");
        reveal_strlit("6");
        reveal_strlit("7");
        reveal_strlit("8");
        reveal_strlit("9");
        assert(r@ =~= seq![digit_char(n as nat)]);
    }
    r
}

/// The action id of numbered shortcut `n`.
pub fn number_shortcut_id(n: u8) -> (r: String)
    requires
        1 <= n <= 9,
    ensures
        r@ == number_id(n as nat),
{
    let mut r = String::from_str("number_");
    r.append(digit_str(n));
    r
}

/// The descriptor of numbered shortcut `n` under `modifier`.
pub fn number_shortcut_descriptor(modifier: &str, n: u8) -> (r: String)
    requires
        1 <= n <= 9,
    ensures
        r@ == number_descriptor(modifier@, n as nat),
{
    let len = modifier.unicode_len();
    if len > 0 && modifier.get_char(len - 1) == 'F' {
        let mut end: usize = len - 1;
        proof {
            assert(modifier@.subrange(0, end as int) =~= modifier@.drop_last());
        }
        while end > 0 && modifier.get_char(end - 1) == '+'
            invariant
                end < len,
                len == modifier@.len(),
                trim_trailing_plus(modifier@.subrange(0, end as int)) == trim_trailing_plus(
                    modifier@.drop_last(),
                ),
            decreases end,
        {
            proof {
                assert(modifier@.subrange(0, end as int).drop_last() =~= modifier@.subrange(
                    0,
                    end - 1,
                ));
            }
            end = end - 1;
        }
        let ghost prefix = modifier@.subrange(0, end as int);
        proof {
            assert(trim_trailing_plus(prefix) == prefix);
        }
        let mut r = String::from_str(modifier.substring_char(0, end));
        if end == 0 {
            let mut f = String::from_str("F");
            f.append(digit_str(n));
            proof {
                reveal_strlit("F");
            }
            assert(f@ =~= number_descriptor(modifier@, n as nat));
            f
        } else {
            r.append("+F");
            r.append(digit_str(n));
            proof {
                reveal_strlit("+F");
            }
            assert(r@ =~= number_descriptor(modifier@, n as nat));
            r
        }
    } else {
        let mut r = String::from_str(modifier);
        r.append("+");
        r.append(digit_str(n));
        proof {
            reveal_strlit("+");
        }
        assert(r@ =~= number_descriptor(modifier@, n as nat));
        r
    }
}

/// `parts` joined with `sep` between neighbours.
pub open spec fn join_with(parts: Seq<Seq<char>>, sep: Seq<char>) -> Seq<char>
    decreases parts.len(),
{
    if parts.len() == 0 {
        Seq::empty()
    } else if parts.len() == 1 {
        parts[0]
    } else {
        join_with(parts.drop_last(), sep) + sep + parts.last()
    }
}

/// The views of a sequence of strings.
pub open spec fn string_views(v: Seq<String>) -> Seq<Seq<char>> {
    v.map_values(|s: String| s@)
}

/// Joins `parts` with `sep` between neighbours.
pub fn join_strings(parts: &Vec<String>, sep: &str) -> (r: String)
    ensures
        r@ == join_with(string_views(parts@), sep@),
{
    let mut out = String::new();
    let mut i: usize = 0;
    while i < parts.len()
        invariant
            i <= parts@.len(),
            out@ == join_with(string_views(parts@).subrange(0, i as int), sep@),
        decreases parts@.len() - i,
    {
        let ghost prefix = string_views(parts@).subrange(0, i as int + 1);
        proof {
            assert(prefix.drop_last() =~= string_views(parts@).subrange(0, i as int));
        }
        if i > 0 {
            out.append(sep);
        } else {
            proof {
                assert(out@ =~= Seq::<char>::empty());
            }
        }
        out.append(parts[i].as_str());
        i = i + 1;
        proof {
            if i > 1 {
                assert(out@ =~= join_with(prefix, sep@));
            } else {
                assert(out@ =~= join_with(prefix, sep@));
            }
        }
    }
    proof {
        assert(string_views(parts@).subrange(0, i as int) =~= string_views(parts@));
    }
    out
}

/// What the OS did with one numbered shortcut.
pub struct BatchOutcome {
    pub id: String,
    pub shortcut_str: String,
    pub registered: bool,
}

/// (id, descriptor, registered) for each outcome.
pub open spec fn outcome_views(v: Seq<BatchOutcome>) -> Seq<(Seq<char>, Seq<char>, bool)> {
    v.map_values(|o: BatchOutcome| (o.id@, o.shortcut_str@, o.registered))
}

/// `t` with each registered outcome entered, in order.
pub open spec fn apply_successes(
    t: Map<Seq<char>, Seq<char>>,
    o: Seq<(Seq<char>, Seq<char>, bool)>,
) -> Map<Seq<char>, Seq<char>>
    decreases o.len(),
{
    if o.len() == 0 {
        t
    } else {
        let before = apply_successes(t, o.drop_last());
        if o.last().2 {
            before.insert(o.last().0, o.last().1)
        } else {
            before
        }
    }
}

/// The ordered entries `e` with each registered outcome appended in turn,
/// after dropping any earlier entry of its id.
pub open spec fn append_successes(
    e: Seq<(Seq<char>, Seq<char>)>,
    o: Seq<(Seq<char>, Seq<char>, bool)>,
) -> Seq<(Seq<char>, Seq<char>)>
    decreases o.len(),
{
    if o.len() == 0 {
        e
    } else {
        let before = append_successes(e, o.drop_last());
        if o.last().2 {
            crate::registry::drop_id(before, o.last().0).push((o.last().0, o.last().1))
        } else {
            before
        }
    }
}

/// The descriptors of the outcomes the OS refused, in order.
pub open spec fn failed_descriptors(o: Seq<(Seq<char>, Seq<char>, bool)>) -> Seq<Seq<char>>
    decreases o.len(),
{
    if o.len() == 0 {
        Seq::empty()
    } else {
        let before = failed_descriptors(o.drop_last());
        if o.last().2 {
            before
        } else {
            before.push(o.last().1)
        }
    }
}

/// A registered outcome whose id no later outcome repeats is in the table
/// afterwards, with its descriptor.
pub proof fn lemma_success_kept(
    t: Map<Seq<char>, Seq<char>>,
    o: Seq<(Seq<char>, Seq<char>, bool)>,
    i: int,
)
    requires
        0 <= i < o.len(),
        o[i].2,
        forall|j: int| i < j < o.len() ==> o[j].0 != o[i].0,
    ensures
        apply_successes(t, o).contains_key(o[i].0),
        apply_successes(t, o)[o[i].0] == o[i].1,
    decreases o.len(),
{
    if i < o.len() - 1 {
        lemma_success_kept(t, o.drop_last(), i);
    }
}

/// An id that is not in the table and that no registered outcome carries is
/// not in the table afterwards.
pub proof fn lemma_failure_absent(
    t: Map<Seq<char>, Seq<char>>,
    o: Seq<(Seq<char>, Seq<char>, bool)>,
    id: Seq<char>,
)
    requires
        !t.contains_key(id),
        forall|j: int| 0 <= j < o.len() && o[j].0 == id ==> !o[j].2,
    ensures
        !apply_successes(t, o).contains_key(id),
    decreases o.len(),
{
    if o.len() > 0 {
        lemma_failure_absent(t, o.drop_last(), id);
    }
}

/// With exactly one refused outcome, the refused descriptors are that one.
pub proof fn lemma_single_failure(o: Seq<(Seq<char>, Seq<char>, bool)>, k: int)
    requires
        0 <= k < o.len(),
        !o[k].2,
        forall|j: int| 0 <= j < o.len() && j != k ==> o[j].2,
    ensures
        failed_descriptors(o) == seq![o[k].1],
    decreases o.len(),
{
    if k < o.len() - 1 {
        lemma_single_failure(o.drop_last(), k);
    } else {
        lemma_no_failure(o.drop_last());
        assert(failed_descriptors(o) =~= seq![o[k].1]);
    }
}

proof fn lemma_no_failure(o: Seq<(Seq<char>, Seq<char>, bool)>)
    requires
        forall|j: int| 0 <= j < o.len() ==> o[j].2,
    ensures
        failed_descriptors(o) == Seq::<Seq<char>>::empty(),
    decreases o.len(),
{
    if o.len() > 0 {
        lemma_no_failure(o.drop_last());
    }
}

/// Every key of the table after a batch was in it before or is a registered
/// outcome's id.
pub proof fn lemma_apply_keys(
    t: Map<Seq<char>, Seq<char>>,
    o: Seq<(Seq<char>, Seq<char>, bool)>,
    k: Seq<char>,
)
    requires
        apply_successes(t, o).contains_key(k),
    ensures
        t.contains_key(k) || exists|j: int| 0 <= j < o.len() && o[j].2 && #[trigger] o[j].0 == k,
    decreases o.len(),
{
    if o.len() > 0 {
        let d = o.drop_last();
        if apply_successes(t, d).contains_key(k) {
            lemma_apply_keys(t, d, k);
            if !t.contains_key(k) {
                let j = choose|j: int| 0 <= j < d.len() && d[j].2 && #[trigger] d[j].0 == k;
                assert(o[j].0 == k);
            }
        } else {
            assert(o[o.len() - 1].0 == k);
        }
    }
}

/// How many outcomes were registered.
pub open spec fn success_count(o: Seq<(Seq<char>, Seq<char>, bool)>) -> nat
    decreases o.len(),
{
    if o.len() == 0 {
        0
    } else {
        success_count(o.drop_last()) + if o.last().2 {
            1nat
        } else {
            0nat
        }
    }
}

/// With distinct ids that the table does not hold yet, the table grows by
/// one entry per registered outcome.
pub proof fn lemma_apply_len(t: Map<Seq<char>, Seq<char>>, o: Seq<(Seq<char>, Seq<char>, bool)>)
    requires
        t.dom().finite(),
        forall|a: int, b: int| 0 <= a < b < o.len() ==> o[a].0 != o[b].0,
        forall|j: int| 0 <= j < o.len() ==> !t.contains_key(#[trigger] o[j].0),
    ensures
        apply_successes(t, o).dom().finite(),
        apply_successes(t, o).len() == t.len() + success_count(o),
    decreases o.len(),
{
    if o.len() > 0 {
        let d = o.drop_last();
        lemma_apply_len(t, d);
        if o.last().2 {
            let k = o.last().0;
            if apply_successes(t, d).contains_key(k) {
                lemma_apply_keys(t, d, k);
                let j = choose|j: int| 0 <= j < d.len() && d[j].2 && #[trigger] d[j].0 == k;
                assert(o[j].0 == o[o.len() - 1].0);
                assert(t.contains_key(o[o.len() - 1].0));
            }
        }
    }
}

/// With exactly one refused outcome, all the others were registered.
pub proof fn lemma_success_count_one_refused(o: Seq<(Seq<char>, Seq<char>, bool)>, k: int)
    requires
        0 <= k < o.len(),
        !o[k].2,
        forall|j: int| 0 <= j < o.len() && j != k ==> o[j].2,
    ensures
        success_count(o) == o.len() - 1,
    decreases o.len(),
{
    if k < o.len() - 1 {
        lemma_success_count_one_refused(o.drop_last(), k);
    } else {
        lemma_success_count_all(o.drop_last());
    }
}

proof fn lemma_success_count_all(o: Seq<(Seq<char>, Seq<char>, bool)>)
    requires
        forall|j: int| 0 <= j < o.len() ==> o[j].2,
    ensures
        success_count(o) == o.len(),
    decreases o.len(),
{
    if o.len() > 0 {
        lemma_success_count_all(o.drop_last());
    }
}

/// The (id, descriptor) of each registered outcome, in order.
pub open spec fn success_pairs(o: Seq<(Seq<char>, Seq<char>, bool)>) -> Seq<
    (Seq<char>, Seq<char>),
>
    decreases o.len(),
{
    if o.len() == 0 {
        Seq::empty()
    } else if o.last().2 {
        success_pairs(o.drop_last()).push((o.last().0, o.last().1))
    } else {
        success_pairs(o.drop_last())
    }
}

proof fn lemma_success_pairs_ids(o: Seq<(Seq<char>, Seq<char>, bool)>, j: int)
    requires
        0 <= j < success_pairs(o).len(),
    ensures
        exists|i: int| 0 <= i < o.len() && o[i].2 && #[trigger] o[i].0 == success_pairs(o)[j].0,
    decreases o.len(),
{
    let d = o.drop_last();
    if j < success_pairs(d).len() {
        lemma_success_pairs_ids(d, j);
        let i = choose|i: int| 0 <= i < d.len() && d[i].2 && #[trigger] d[i].0 == success_pairs(
            d,
        )[j].0;
        assert(o[i].0 == success_pairs(o)[j].0);
    } else {
        assert(o[o.len() - 1].0 == success_pairs(o)[j].0);
    }
}

/// With distinct ids that the entries do not hold yet, the registered
/// outcomes are appended in order after the entries.
pub proof fn lemma_append_in_order(
    e: Seq<(Seq<char>, Seq<char>)>,
    o: Seq<(Seq<char>, Seq<char>, bool)>,
)
    requires
        forall|a: int, b: int| 0 <= a < b < o.len() ==> o[a].0 != o[b].0,
        forall|i: int, j: int| 0 <= i < o.len() && 0 <= j < e.len() ==> e[j].0 != o[i].0,
    ensures
        append_successes(e, o) == e + success_pairs(o),
    decreases o.len(),
{
    if o.len() > 0 {
        let d = o.drop_last();
        lemma_append_in_order(e, d);
        if o.last().2 {
            let b = e + success_pairs(d);
            let id = o.last().0;
            assert forall|j: int| 0 <= j < b.len() implies (#[trigger] b[j]).0 != id by {
                if j < e.len() {
                    assert(e[j].0 != o[o.len() - 1].0);
                } else {
                    lemma_success_pairs_ids(d, j - e.len());
                    let i = choose|i: int|
                        0 <= i < d.len() && d[i].2 && #[trigger] d[i].0 == success_pairs(d)[j
                            - e.len()].0;
                    assert(o[i].0 != o[o.len() - 1].0);
                }
            }
            crate::registry::lemma_drop_id_absent(b, id);
            assert(b.push((id, o.last().1)) =~= e + success_pairs(o));
        }
    }
}

} // verus!
