//! Names of volume mounts: their order, set operations on lists of them,
//! sorting, and how a list of them is written in a message.
use vstd::prelude::*;

verus! {

/// The names held by a list of strings.
pub open spec fn views(v: Seq<String>) -> Seq<Seq<char>> {
    v.map_values(|s: String| s@)
}

/// Strict lexicographic order on names, characters compared by code point.
pub open spec fn name_lt(a: Seq<char>, b: Seq<char>) -> bool
    decreases a.len(),
{
    if a.len() == 0 {
        b.len() > 0
    } else if b.len() == 0 {
        false
    } else if a[0] != b[0] {
        (a[0] as int) < (b[0] as int)
    } else {
        name_lt(a.drop_first(), b.drop_first())
    }
}

/// Every name is strictly before every later one.
pub open spec fn strictly_sorted(s: Seq<Seq<char>>) -> bool {
    forall|i: int, j: int| 0 <= i < j < s.len() ==> name_lt(#[trigger] s[i], #[trigger] s[j])
}

/// The names of a set in ascending order.
pub open spec fn sorted_names(names: Set<Seq<char>>) -> Seq<Seq<char>> {
    choose|s: Seq<Seq<char>>| strictly_sorted(s) && s.to_set() == names
}

pub proof fn lemma_name_lt_irreflexive(a: Seq<char>)
    ensures
        !name_lt(a, a),
    decreases a.len(),
{
    if a.len() > 0 {
        lemma_name_lt_irreflexive(a.drop_first());
    }
}

pub proof fn lemma_name_lt_transitive(a: Seq<char>, b: Seq<char>, c: Seq<char>)
    requires
        name_lt(a, b),
        name_lt(b, c),
    ensures
        name_lt(a, c),
    decreases a.len(),
{
    if a.len() > 0 && b.len() > 0 && c.len() > 0 && a[0] == b[0] && b[0] == c[0] {
        lemma_name_lt_transitive(a.drop_first(), b.drop_first(), c.drop_first());
    }
}

pub proof fn lemma_name_lt_total(a: Seq<char>, b: Seq<char>)
    requires
        a != b,
    ensures
        name_lt(a, b) || name_lt(b, a),
    decreases a.len(),
{
    if a.len() > 0 && b.len() > 0 && a[0] == b[0] {
        if a.drop_first() == b.drop_first() {
            assert(a =~= seq![a[0]] + a.drop_first());
            assert(b =~= seq![b[0]] + b.drop_first());
        }
        lemma_name_lt_total(a.drop_first(), b.drop_first());
    } else if a.len() == 0 && b.len() == 0 {
        assert(a =~= b);
    }
}

/// Dropping the first name of a sorted list leaves the set without that name.
proof fn lemma_sorted_tail_set(s: Seq<Seq<char>>)
    requires
        strictly_sorted(s),
        s.len() > 0,
    ensures
        s.drop_first().to_set() == s.to_set().remove(s[0]),
        strictly_sorted(s.drop_first()),
{
    let t = s.drop_first();
    assert forall|x: Seq<char>| t.to_set().contains(x) <==> s.to_set().remove(s[0]).contains(x) by {
        if t.contains(x) {
            let i = choose|i: int| 0 <= i < t.len() && t[i] == x;
            assert(s[i + 1] == x);
            assert(name_lt(s[0], s[i + 1]));
            lemma_name_lt_irreflexive(x);
        }
        if s.contains(x) && x != s[0] {
            let i = choose|i: int| 0 <= i < s.len() && s[i] == x;
            assert(t[i - 1] == x);
        }
    }
    assert(t.to_set() =~= s.to_set().remove(s[0]));
    assert forall|i: int, j: int| 0 <= i < j < t.len() implies name_lt(t[i], t[j]) by {
        assert(name_lt(s[i + 1], s[j + 1]));
    }
}

/// Ascending order is unique: two sorted lists of the same names are equal.
pub proof fn lemma_sorted_unique(s1: Seq<Seq<char>>, s2: Seq<Seq<char>>)
    requires
        strictly_sorted(s1),
        strictly_sorted(s2),
        s1.to_set() == s2.to_set(),
    ensures
        s1 == s2,
    decreases s1.len(),
{
    if s1.len() == 0 {
        if s2.len() > 0 {
            assert(s2.to_set().contains(s2[0]));
        }
        assert(s1 =~= s2);
    } else {
        assert(s1.to_set().contains(s1[0]));
        assert(s2.contains(s1[0]));
        let k = choose|k: int| 0 <= k < s2.len() && s2[k] == s1[0];
        assert(s2.to_set().contains(s2[0]));
        assert(s1.contains(s2[0]));
        let m = choose|m: int| 0 <= m < s1.len() && s1[m] == s2[0];
        if s1[0] != s2[0] {
            assert(name_lt(s1[0], s1[m]));
            assert(name_lt(s2[0], s2[k]));
            lemma_name_lt_transitive(s1[0], s2[0], s1[0]);
            lemma_name_lt_irreflexive(s1[0]);
        }
        lemma_sorted_tail_set(s1);
        lemma_sorted_tail_set(s2);
        lemma_sorted_unique(s1.drop_first(), s2.drop_first());
        assert(s1 =~= seq![s1[0]] + s1.drop_first());
        assert(s2 =~= seq![s2[0]] + s2.drop_first());
    }
}

/// A sorted list of a set is the one that `sorted_names` picks.
pub proof fn lemma_sorted_names(s: Seq<Seq<char>>)
    requires
        strictly_sorted(s),
    ensures
        sorted_names(s.to_set()) == s,
{
    let names = s.to_set();
    let t = sorted_names(names);
    assert(strictly_sorted(t) && t.to_set() == names);
    lemma_sorted_unique(t, s);
}

/// Relies on `<` of `str`: std orders strings lexicographically, comparing
/// characters by their code points.
#[verifier::external_body]
fn name_precedes(a: &str, b: &str) -> (r: bool)
    ensures
        r == name_lt(a@, b@),
{
    a < b
}

/// Whether a name occurs in a list.
pub fn contains_name(v: &Vec<String>, x: &String) -> (r: bool)
    ensures
        r == views(v@).contains(x@),
{
    let mut i: usize = 0;
    while i < v.len()
        invariant
            i <= v.len(),
            forall|j: int| 0 <= j < i ==> v@[j]@ != x@,
        decreases v.len() - i,
    {
        if v[i] == *x {
            assert(views(v@)[i as int] == x@);
            return true;
        }
        i = i + 1;
    }
    proof {
        if views(v@).contains(x@) {
            let j = choose|j: int| 0 <= j < views(v@).len() && views(v@)[j] == x@;
            assert(v@[j]@ == x@);
        }
    }
    false
}

/// The names of `a` that `b` holds (`keep`), or that it does not hold, in
/// the order of `a`.
pub fn filter_names(a: &Vec<String>, b: &Vec<String>, keep: bool) -> (r: Vec<String>)
    requires
        views(a@).no_duplicates(),
    ensures
        views(r@).no_duplicates(),
        views(r@).to_set() == (if keep {
            views(a@).to_set().intersect(views(b@).to_set())
        } else {
            views(a@).to_set().difference(views(b@).to_set())
        }),
{
    let ghost target = if keep {
        views(a@).to_set().intersect(views(b@).to_set())
    } else {
        views(a@).to_set().difference(views(b@).to_set())
    };
    let mut r: Vec<String> = Vec::new();
    let mut i: usize = 0;
    while i < a.len()
        invariant
            i <= a.len(),
            views(a@).no_duplicates(),
            views(r@).no_duplicates(),
            target == (if keep {
                views(a@).to_set().intersect(views(b@).to_set())
            } else {
                views(a@).to_set().difference(views(b@).to_set())
            }),
            forall|x: Seq<char>|
                #[trigger] views(r@).contains(x) <==> (views(a@).subrange(0, i as int).contains(x)
                    && target.contains(x)),
        decreases a.len() - i,
    {
        let held = contains_name(b, &a[i]);
        let ghost old_r = r@;
        let ghost ai = a@[i as int]@;
        let ghost pre = views(a@).subrange(0, i as int);
        proof {
            assert(views(a@)[i as int] == ai);
            assert(views(a@).contains(ai));
            assert(target.contains(ai) == (held == keep));
            assert forall|x: Seq<char>|
                #[trigger] views(old_r).contains(x) <==> (pre.contains(x) && target.contains(x)) by {
                assert(views(r@).contains(x) == views(old_r).contains(x));
            }
            assert forall|k: int| 0 <= k < old_r.len() implies views(old_r)[k] != ai by {
                let x = views(old_r)[k];
                assert(views(old_r).contains(x));
                let m = choose|m: int| 0 <= m < pre.len() && pre[m] == x;
                assert(views(a@)[m] == x);
            }
        }
        if held == keep {
            r.push(a[i].clone());
            assert(views(r@) =~= views(old_r).push(ai));
        } else {
            assert(views(r@) =~= views(old_r));
        }
        proof {
            let pre1 = views(a@).subrange(0, i + 1);
            if held == keep {
                assert(views(r@).no_duplicates());
            }
            assert forall|x: Seq<char>|
                #[trigger] views(r@).contains(x) <==> (pre1.contains(x) && target.contains(x)) by {
                if x == ai {
                    assert(pre1[i as int] == ai);
                }
                if pre1.contains(x) && x != ai {
                    let j = choose|j: int| 0 <= j < pre1.len() && pre1[j] == x;
                    assert(pre[j] == x);
                }
                if pre.contains(x) {
                    let j = choose|j: int| 0 <= j < pre.len() && pre[j] == x;
                    assert(pre1[j] == x);
                }
                if held == keep {
                    if views(r@).contains(x) {
                        let j = choose|j: int| 0 <= j < views(r@).len() && views(r@)[j] == x;
                        if j < old_r.len() {
                            assert(views(old_r)[j] == x);
                        }
                    }
                    if views(old_r).contains(x) {
                        let j = choose|j: int| 0 <= j < old_r.len() && views(old_r)[j] == x;
                        assert(views(r@)[j] == x);
                    }
                    assert(views(r@)[old_r.len() as int] == ai);
                }
            }
        }
        i = i + 1;
    }
    proof {
        assert(views(a@).subrange(0, a@.len() as int) =~= views(a@));
        assert(views(r@).to_set() =~= target);
    }
    r
}

/// The position at which `x` goes in a sorted list that does not hold it.
fn insertion_point(r: &Vec<String>, x: &String) -> (p: usize)
    requires
        strictly_sorted(views(r@)),
        !views(r@).contains(x@),
    ensures
        p <= r@.len(),
        forall|j: int| 0 <= j < p ==> name_lt(#[trigger] views(r@)[j], x@),
        forall|j: int| p <= j < r@.len() ==> name_lt(x@, #[trigger] views(r@)[j]),
{
    let mut p: usize = 0;
    let mut searching = true;
    while searching && p < r.len()
        invariant
            p <= r@.len(),
            forall|j: int| 0 <= j < p ==> name_lt(#[trigger] views(r@)[j], x@),
            !searching ==> p < r@.len() && !name_lt(views(r@)[p as int], x@),
        decreases (if searching { r@.len() - p + 1 } else { 0 }),
    {
        if name_precedes(r[p].as_str(), x.as_str()) {
            p = p + 1;
        } else {
            searching = false;
        }
    }
    proof {
        if p < r@.len() {
            let y = views(r@)[p as int];
            assert(views(r@)[p as int] == r@[p as int]@);
            assert(y != x@);
            lemma_name_lt_total(y, x@);
            assert forall|j: int| p <= j < r@.len() implies name_lt(x@, #[trigger] views(r@)[j]) by {
                if j > p {
                    lemma_name_lt_transitive(x@, y, views(r@)[j]);
                }
            }
        }
    }
    p
}

/// The names of a list in ascending order.
pub fn sort_names(v: &Vec<String>) -> (r: Vec<String>)
    requires
        views(v@).no_duplicates(),
    ensures
        strictly_sorted(views(r@)),
        views(r@).to_set() == views(v@).to_set(),
        views(r@) == sorted_names(views(v@).to_set()),
{
    let mut r: Vec<String> = Vec::new();
    let mut i: usize = 0;
    while i < v.len()
        invariant
            i <= v@.len(),
            views(v@).no_duplicates(),
            strictly_sorted(views(r@)),
            views(r@).to_set() == views(v@).subrange(0, i as int).to_set(),
        decreases v@.len() - i,
    {
        let x = v[i].clone();
        let ghost old_r = views(r@);
        let ghost pre = views(v@).subrange(0, i as int);
        proof {
            if old_r.contains(x@) {
                assert(old_r.to_set().contains(x@));
                let m = choose|m: int| 0 <= m < pre.len() && pre[m] == x@;
                assert(views(v@)[m] == views(v@)[i as int]);
            }
        }
        let p = insertion_point(&r, &x);
        r.insert(p, x);
        proof {
            let e = v@[i as int]@;
            let nr = views(r@);
            assert(nr =~= old_r.insert(p as int, e));
            assert forall|a: int, b: int| 0 <= a < b < nr.len() implies name_lt(
                #[trigger] nr[a],
                #[trigger] nr[b],
            ) by {
                if b < p {
                } else if a < p && b == p {
                } else if a < p {
                    assert(nr[b] == old_r[b - 1]);
                } else if a == p {
                    assert(nr[b] == old_r[b - 1]);
                } else {
                    assert(nr[a] == old_r[a - 1]);
                    assert(nr[b] == old_r[b - 1]);
                }
            }
            let pre1 = views(v@).subrange(0, i + 1);
            assert(pre1 =~= pre.push(e));
            pre.lemma_push_to_set_commute(e);
            assert forall|y: Seq<char>| nr.contains(y) <==> old_r.to_set().insert(e).contains(y) by {
                if nr.contains(y) {
                    let j = choose|j: int| 0 <= j < nr.len() && nr[j] == y;
                    if j < p {
                        assert(old_r[j] == y);
                    } else if j > p {
                        assert(old_r[j - 1] == y);
                    }
                }
                if old_r.contains(y) {
                    let j = choose|j: int| 0 <= j < old_r.len() && old_r[j] == y;
                    if j < p {
                        assert(nr[j] == y);
                    } else {
                        assert(nr[j + 1] == y);
                    }
                }
                if y == e {
                    assert(nr[p as int] == y);
                }
            }
            assert(nr.to_set() =~= pre1.to_set());
        }
        i = i + 1;
    }
    proof {
        assert(views(v@).subrange(0, v@.len() as int) =~= views(v@));
        lemma_sorted_names(views(r@));
    }
    r
}

/// What `Debug` writes for a name: the name in double quotes, with escapes.
pub uninterp spec fn debug_quoted(s: Seq<char>) -> Seq<char>;

/// Relies on the `Debug` impl of `str`, through `format!("{:?}")`: what it
/// writes depends on the characters alone.
#[verifier::external_body]
fn quote_name(s: &str) -> (r: String)
    ensures
        r@ == debug_quoted(s@),
{
    format!("{:?}", s)
}

/// Texts joined with `", "` between each two.
pub open spec fn joined(s: Seq<Seq<char>>) -> Seq<char>
    decreases s.len(),
{
    if s.len() == 0 {
        Seq::empty()
    } else if s.len() == 1 {
        s[0]
    } else {
        joined(s.drop_last()) + ", "@ + s.last()
    }
}

/// The names as `Debug` writes a list of them: `["a", "b"]`.
pub open spec fn name_list_text(s: Seq<Seq<char>>) -> Seq<char> {
    "["@ + joined(s.map_values(|n: Seq<char>| debug_quoted(n))) + "]"@
}

/// Writes texts that are already quoted as a list in brackets.
pub fn bracket_list(quoted: &Vec<String>) -> (r: String)
    ensures
        r@ == "["@ + joined(views(quoted@)) + "]"@,
{
    let mut acc = String::new();
    let mut i: usize = 0;
    while i < quoted.len()
        invariant
            i <= quoted@.len(),
            acc@ == joined(views(quoted@).subrange(0, i as int)),
        decreases quoted@.len() - i,
    {
        let ghost sub1 = views(quoted@).subrange(0, i + 1);
        assert(sub1.drop_last() =~= views(quoted@).subrange(0, i as int));
        assert(sub1.last() == quoted@[i as int]@);
        if i == 0 {
            assert(acc@ =~= Seq::<char>::empty());
        } else {
            acc.append(", ");
        }
        acc.append(quoted[i].as_str());
        proof {
            if i == 0 {
                assert(acc@ =~= sub1[0]);
            }
        }
        i = i + 1;
    }
    assert(views(quoted@).subrange(0, quoted@.len() as int) =~= views(quoted@));
    let mut r = String::from_str("[");
    r.append(acc.as_str());
    r.append("]");
    r
}

/// Writes names as `Debug` writes a list of them.
pub fn format_name_list(names: &Vec<String>) -> (r: String)
    ensures
        r@ == name_list_text(views(names@)),
{
    let mut quoted: Vec<String> = Vec::new();
    let mut i: usize = 0;
    while i < names.len()
        invariant
            i <= names@.len(),
            views(quoted@) =~= views(names@).subrange(0, i as int).map_values(
                |n: Seq<char>| debug_quoted(n),
            ),
        decreases names@.len() - i,
    {
        let q = quote_name(names[i].as_str());
        let ghost old_q = views(quoted@);
        quoted.push(q);
        proof {
            assert(views(quoted@) =~= old_q.push(debug_quoted(names@[i as int]@)));
            assert(views(names@).subrange(0, i + 1) =~= views(names@).subrange(0, i as int).push(
                names@[i as int]@,
            ));
        }
        i = i + 1;
    }
    assert(views(names@).subrange(0, names@.len() as int) =~= views(names@));
    bracket_list(&quoted)
}

/// A list holds no name exactly when its set of names is empty.
pub proof fn lemma_empty_names(s: Seq<Seq<char>>)
    ensures
        (s.to_set() == Set::<Seq<char>>::empty()) <==> s.len() == 0,
{
    if s.len() > 0 {
        assert(s.to_set().contains(s[0]));
    } else {
        assert(s.to_set() =~= Set::<Seq<char>>::empty());
    }
}

/// The names of a list, each once, in the order of first occurrence.
pub fn dedup_names(names: &Vec<String>) -> (r: Vec<String>)
    ensures
        views(r@).no_duplicates(),
        views(r@).to_set() == views(names@).to_set(),
{
    let mut unique: Vec<String> = Vec::new();
    let mut i: usize = 0;
    while i < names.len()
        invariant
            i <= names@.len(),
            views(unique@).no_duplicates(),
            views(unique@).to_set() == views(names@).subrange(0, i as int).to_set(),
        decreases names@.len() - i,
    {
        let ghost old_u = views(unique@);
        let ghost e = names@[i as int]@;
        let ghost pre = views(names@).subrange(0, i as int);
        proof {
            assert(views(names@).subrange(0, i + 1) =~= pre.push(e));
            pre.lemma_push_to_set_commute(e);
        }
        if !contains_name(&unique, &names[i]) {
            unique.push(names[i].clone());
            proof {
                assert(views(unique@) =~= old_u.push(e));
                old_u.lemma_push_to_set_commute(e);
                assert(views(unique@).no_duplicates()) by {
                    assert forall|a: int, b: int|
                        0 <= a < b < views(unique@).len() implies views(unique@)[a]
                        != views(unique@)[b] by {
                        if b == old_u.len() {
                            assert(old_u.contains(old_u[a]));
                        }
                    }
                }
            }
        } else {
            proof {
                assert(old_u.to_set().insert(e) =~= old_u.to_set());
            }
        }
        i = i + 1;
    }
    assert(views(names@).subrange(0, names@.len() as int) =~= views(names@));
    unique
}

} // verus!
