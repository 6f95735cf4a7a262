use vstd::prelude::*;
use crate::civ::Civ;

verus! {

/// The lowercase form of a string, as `str::to_lowercase` computes it.
pub uninterp spec fn lower_of(s: Seq<char>) -> Seq<char>;

/// Relies on str::to_lowercase: the result depends on the characters of
/// the input alone.
#[verifier::external_body]
fn lowercase(s: &String) -> (r: String)
    ensures
        r@ == lower_of(s@),
{
    s.to_lowercase()
}

/// The views of a list of strings.
pub open spec fn str_views(ss: Seq<String>) -> Seq<Seq<char>> {
    ss.map_values(|s: String| s@)
}

/// A record is banned when its name appears in the banned-civilization
/// list (compared case-sensitively), its lowercased leader appears in
/// the banned-leader list, or some lowercased banned bias appears among
/// its bias tags.
pub open spec fn is_banned(
    c: Civ,
    banned_civs: Seq<Seq<char>>,
    banned_leaders: Seq<Seq<char>>,
    banned_biases: Seq<Seq<char>>,
) -> bool {
    ||| banned_civs.contains(c.name@)
    ||| banned_leaders.contains(lower_of(c.leader@))
    ||| exists|i: int|
        0 <= i < banned_biases.len() && str_views(c.bias@).contains(
            lower_of(#[trigger] banned_biases[i]),
        )
}

/// The predicate a record must satisfy to survive filtering.
pub open spec fn keep_pred(
    banned_civs: Seq<Seq<char>>,
    banned_leaders: Seq<Seq<char>>,
    banned_biases: Seq<Seq<char>>,
) -> spec_fn(Civ) -> bool {
    |c: Civ| !is_banned(c, banned_civs, banned_leaders, banned_biases)
}

/// The records of `cs` that no ban matches, in their original order.
pub open spec fn filtered(
    cs: Seq<Civ>,
    banned_civs: Seq<Seq<char>>,
    banned_leaders: Seq<Seq<char>>,
    banned_biases: Seq<Seq<char>>,
) -> Seq<Civ> {
    cs.filter(keep_pred(banned_civs, banned_leaders, banned_biases))
}

/// Whether some entry of `list` holds the same characters as `s`.
fn contains_string(list: &Vec<String>, s: &String) -> (r: bool)
    ensures
        r == str_views(list@).contains(s@),
{
    let mut i: usize = 0;
    while i < list.len()
        invariant
            i <= list@.len(),
            forall|j: int| 0 <= j < i ==> str_views(list@)[j] != s@,
        decreases list@.len() - i,
    {
        if list[i] == *s {
            assert(str_views(list@)[i as int] == s@);
            return true;
        }
        i = i + 1;
    }
    false
}

/// Whether any of the three ban lists matches `c`.
fn civ_is_banned(
    c: &Civ,
    banned_civs: &Vec<String>,
    banned_leaders: &Vec<String>,
    banned_biases: &Vec<String>,
) -> (r: bool)
    ensures
        r == is_banned(
            *c,
            str_views(banned_civs@),
            str_views(banned_leaders@),
            str_views(banned_biases@),
        ),
{
    if contains_string(banned_civs, &c.name) {
        return true;
    }
    let leader_lower = lowercase(&c.leader);
    if contains_string(banned_leaders, &leader_lower) {
        return true;
    }
    let mut i: usize = 0;
    while i < banned_biases.len()
        invariant
            i <= banned_biases@.len(),
            forall|j: int|
                0 <= j < i ==> !str_views(c.bias@).contains(
                    lower_of(#[trigger] str_views(banned_biases@)[j]),
                ),
        decreases banned_biases@.len() - i,
    {
        let bias_lower = lowercase(&banned_biases[i]);
        if contains_string(&c.bias, &bias_lower) {
            assert(str_views(banned_biases@)[i as int] == banned_biases@[i as int]@);
            return true;
        }
        i = i + 1;
    }
    false
}

/// Appending one element filters to the old result, extended by the
/// element exactly when it satisfies the predicate.
proof fn lemma_filter_push<A>(s: Seq<A>, pred: spec_fn(A) -> bool, x: A)
    ensures
        s.push(x).filter(pred) == (if pred(x) {
            s.filter(pred).push(x)
        } else {
            s.filter(pred)
        }),
{
    reveal(Seq::filter);
    assert(s.push(x).drop_last() =~= s);
    assert(s.push(x).last() == x);
}

/// A sequence whose elements all satisfy the predicate filters to itself.
proof fn lemma_filter_all_pass<A>(s: Seq<A>, pred: spec_fn(A) -> bool)
    requires
        forall|i: int| 0 <= i < s.len() ==> pred(#[trigger] s[i]),
    ensures
        s.filter(pred) == s,
    decreases s.len(),
{
    reveal(Seq::filter);
    if s.len() == 0 {
        assert(s.filter(pred) =~= s);
    } else {
        assert forall|i: int| 0 <= i < s.drop_last().len() implies pred(#[trigger] s.drop_last()[i]) by {
            assert(s.drop_last()[i] == s[i]);
        }
        lemma_filter_all_pass(s.drop_last(), pred);
        assert(pred(s.last()));
        assert(s.drop_last().push(s.last()) =~= s);
    }
}

/// Law: filtering an already-filtered list with the same ban sets yields
/// the same list; the first pass already removed every banned record.
pub proof fn lemma_filter_idempotent(
    cs: Seq<Civ>,
    banned_civs: Seq<Seq<char>>,
    banned_leaders: Seq<Seq<char>>,
    banned_biases: Seq<Seq<char>>,
)
    ensures
        filtered(
            filtered(cs, banned_civs, banned_leaders, banned_biases),
            banned_civs,
            banned_leaders,
            banned_biases,
        ) == filtered(cs, banned_civs, banned_leaders, banned_biases),
{
    let pred = keep_pred(banned_civs, banned_leaders, banned_biases);
    let once = cs.filter(pred);
    assert forall|i: int| 0 <= i < once.len() implies pred(#[trigger] once[i]) by {
        cs.lemma_filter_pred(pred, i);
    }
    lemma_filter_all_pass(once, pred);
}

/// Keep only the records that no ban matches; survivors keep their
/// original order. Name bans are case-sensitive; leader and bias bans
/// are matched through lowercasing, as `is_banned` states.
pub fn filter_civs(
    civs: Vec<Civ>,
    banned_civs: &Vec<String>,
    banned_leaders: &Vec<String>,
    banned_biases: &Vec<String>,
) -> (r: Vec<Civ>)
    ensures
        r@ == filtered(
            civs@,
            str_views(banned_civs@),
            str_views(banned_leaders@),
            str_views(banned_biases@),
        ),
{
    let ghost orig: Seq<Civ> = civs@;
    let ghost pred = keep_pred(str_views(banned_civs@), str_views(banned_leaders@), str_views(banned_biases@));
    let mut rest = civs;
    let mut out: Vec<Civ> = Vec::new();
    let ghost mut k: int = 0;
    while rest.len() > 0
        invariant
            0 <= k <= orig.len(),
            rest@ == orig.skip(k),
            out@ == orig.take(k).filter(pred),
            pred == keep_pred(str_views(banned_civs@), str_views(banned_leaders@), str_views(banned_biases@)),
        decreases rest@.len(),
    {
        let c = rest.remove(0);
        proof {
            assert(orig.skip(k)[0] == orig[k]);
            assert(orig.skip(k).remove(0) =~= orig.skip(k + 1));
        }
        let banned = civ_is_banned(&c, banned_civs, banned_leaders, banned_biases);
        if !banned {
            out.push(c);
        }
        proof {
            lemma_filter_push(orig.take(k), pred, orig[k]);
            assert(orig.take(k + 1) =~= orig.take(k).push(orig[k]));
            k = k + 1;
        }
    }
    proof {
        assert(k == orig.len());
        assert(orig.take(k) =~= orig);
    }
    out
}

} // verus!
