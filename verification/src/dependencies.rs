//! The compiler's dependency graph of documents (which files each file
//! depends on) and the questions asked of it: who depends on a file,
//! directly and transitively; plus the names the compiler derives from paths.
use vstd::prelude::*;

use crate::lexical::{sorted_distinct, strictly_sorted};
use crate::observability::business::string_views;
use crate::text::{chars_eq, chars_of, is_ascii_alnum, push_str, string_of, trim, trimmed};

verus! {

/// `source` lists `target` among its dependencies.
pub open spec fn depends_on(edges: Seq<(String, Vec<String>)>, source: Seq<char>, target: Seq<char>) -> bool {
    exists|i: int|
        0 <= i < edges.len() && (#[trigger] edges[i]).0@ == source && string_views(edges[i].1@).contains(target)
}

/// `c` is a chain of dependencies from `t` up to `s`: it starts at `t`, ends
/// at `s`, and each file in it depends on the one before.
pub open spec fn is_chain(edges: Seq<(String, Vec<String>)>, t: Seq<char>, s: Seq<char>, c: Seq<Seq<char>>) -> bool {
    &&& c.len() >= 2
    &&& c[0] == t
    &&& c.last() == s
    &&& forall|i: int| 0 <= i < c.len() - 1 ==> depends_on(edges, #[trigger] c[i + 1], c[i])
}

/// `s` depends on `t` through one or more dependencies.
pub open spec fn depends_transitively(edges: Seq<(String, Vec<String>)>, t: Seq<char>, s: Seq<char>) -> bool {
    exists|c: Seq<Seq<char>>| #[trigger] is_chain(edges, t, s, c)
}

proof fn lemma_chain_start(edges: Seq<(String, Vec<String>)>, t: Seq<char>, s: Seq<char>)
    requires
        depends_on(edges, s, t),
    ensures
        depends_transitively(edges, t, s),
{
    let c = seq![t, s];
    assert(is_chain(edges, t, s, c));
}

proof fn lemma_chain_step(edges: Seq<(String, Vec<String>)>, t: Seq<char>, m: Seq<char>, s: Seq<char>)
    requires
        depends_transitively(edges, t, m),
        depends_on(edges, s, m),
    ensures
        depends_transitively(edges, t, s),
{
    let c = choose|c: Seq<Seq<char>>| is_chain(edges, t, m, c);
    let c2 = c.push(s);
    assert forall|i: int| 0 <= i < c2.len() - 1 implies depends_on(edges, #[trigger] c2[i + 1], c2[i]) by {
        if i < c.len() - 1 {
            assert(c2[i + 1] == c[i + 1] && c2[i] == c[i]);
        } else {
            assert(c2[i] == c.last());
        }
    }
    assert(is_chain(edges, t, s, c2));
}

fn list_contains(v: &Vec<String>, x: &Vec<char>) -> (r: bool)
    ensures
        r == string_views(v@).contains(x@),
{
    let mut i: usize = 0;
    while i < v.len()
        invariant
            i <= v@.len(),
            forall|j: int| 0 <= j < i ==> v@[j]@ != x@,
        decreases v.len() - i,
    {
        if chars_eq(&chars_of(v[i].as_str()), x) {
            assert(string_views(v@)[i as int] == x@);
            return true;
        }
        i = i + 1;
    }
    proof {
        if string_views(v@).contains(x@) {
            let j = choose|j: int| 0 <= j < string_views(v@).len() && string_views(v@)[j] == x@;
            assert(v@[j]@ == x@);
        }
    }
    false
}

/// The files that list `target` among their dependencies, sorted, each once.
pub fn reverse_dependents(edges: &Vec<(String, Vec<String>)>, target: &str) -> (r: Vec<String>)
    ensures
        strictly_sorted(string_views(r@)),
        forall|s: Seq<char>| string_views(r@).contains(s) <==> depends_on(edges@, s, target@),
{
    let t = chars_of(target);
    let mut sources: Vec<String> = Vec::new();
    let mut i: usize = 0;
    while i < edges.len()
        invariant
            i <= edges@.len(),
            t@ == target@,
            forall|s: Seq<char>| string_views(sources@).contains(s) <==> exists|j: int|
                0 <= j < i && (#[trigger] edges@[j]).0@ == s && string_views(edges@[j].1@).contains(target@),
        decreases edges.len() - i,
    {
        if list_contains(&edges[i].1, &t) {
            let ghost s0 = string_views(sources@);
            sources.push(edges[i].0.clone());
            assert(string_views(sources@) =~= s0.push(edges@[i as int].0@));
            assert forall|s: Seq<char>| string_views(sources@).contains(s) <==> exists|j: int|
                0 <= j < i + 1 && (#[trigger] edges@[j]).0@ == s && string_views(edges@[j].1@).contains(target@) by {
                if string_views(sources@).contains(s) && s != edges@[i as int].0@ {
                    let k = choose|k: int| 0 <= k < string_views(sources@).len() && string_views(sources@)[k] == s;
                    assert(s0[k] == s);
                }
                if s0.contains(s) {
                    let k = choose|k: int| 0 <= k < s0.len() && s0[k] == s;
                    assert(string_views(sources@)[k] == s);
                }
                if s == edges@[i as int].0@ {
                    assert(string_views(sources@)[s0.len() as int] == s);
                }
            }
        }
        i = i + 1;
    }
    sorted_distinct(&sources)
}

/// Every file that depends on `target` through one or more dependencies,
/// sorted, each once.
pub fn transitive_dependents(edges: &Vec<(String, Vec<String>)>, target: &str) -> (r: Vec<String>)
    ensures
        strictly_sorted(string_views(r@)),
        forall|s: Seq<char>| #[trigger] string_views(r@).contains(s) ==> depends_transitively(edges@, target@, s),
        forall|s: Seq<char>| depends_on(edges@, s, target@) ==> #[trigger] string_views(r@).contains(s),
        forall|m: Seq<char>, s: Seq<char>|
            #![trigger string_views(r@).contains(m), depends_on(edges@, s, m)]
            string_views(r@).contains(m) && depends_on(edges@, s, m) ==> string_views(r@).contains(s),
{
    let first = reverse_dependents(edges, target);
    let mut found: Vec<String> = Vec::new();
    let mut i: usize = 0;
    while i < first.len()
        invariant
            i <= first@.len(),
            string_views(found@) =~= string_views(first@).take(i as int),
        decreases first.len() - i,
    {
        let ghost f0 = string_views(found@);
        found.push(first[i].clone());
        assert(string_views(found@) =~= f0.push(first@[i as int]@));
        i = i + 1;
    }
    assert(string_views(first@).take(first@.len() as int) =~= string_views(first@));
    let ghost sources = edges@.map_values(|e: (String, Vec<String>)| e.0@);
    proof {
        assert forall|a: int, b: int| 0 <= a < b < string_views(found@).len() implies string_views(found@)[a]
            != string_views(found@)[b] by {
            crate::lexical::lemma_lex_irreflexive(string_views(found@)[a]);
        }
        assert forall|k: int| 0 <= k < string_views(found@).len() implies depends_transitively(
            edges@,
            target@,
            #[trigger] string_views(found@)[k],
        ) by {
            assert(string_views(first@)[k] == string_views(found@)[k]);
            assert(string_views(first@).contains(string_views(found@)[k]));
            lemma_chain_start(edges@, target@, string_views(found@)[k]);
        }
        assert forall|k: int| 0 <= k < found@.len() implies sources.contains(#[trigger] string_views(found@)[k]) by {
            assert(string_views(first@)[k] == string_views(found@)[k]);
            assert(string_views(first@).contains(string_views(found@)[k]));
            let w = choose|w: int| 0 <= w < edges@.len() && (#[trigger] edges@[w]).0@ == string_views(found@)[k]
                && string_views(edges@[w].1@).contains(target@);
            assert(sources[w] == string_views(found@)[k]);
        }
        crate::groups::lemma_distinct_within(string_views(found@), sources);
    }
    let mut j: usize = 0;
    while j < found.len()
        invariant
            j <= found@.len(),
            found@.len() <= edges@.len(),
            sources == edges@.map_values(|e: (String, Vec<String>)| e.0@),
            string_views(found@).no_duplicates(),
            forall|k: int| 0 <= k < found@.len() ==> sources.contains(#[trigger] string_views(found@)[k]),
            forall|k: int| 0 <= k < found@.len() ==> depends_transitively(edges@, target@, #[trigger] string_views(found@)[k]),
            forall|s: Seq<char>| depends_on(edges@, s, target@) ==> #[trigger] string_views(found@).contains(s),
            forall|k: int, s: Seq<char>|
                0 <= k < j && #[trigger] depends_on(edges@, s, string_views(found@)[k]) ==> string_views(found@).contains(s),
        decreases edges@.len() - j,
    {
        let parents = reverse_dependents(edges, found[j].as_str());
        let mut q: usize = 0;
        while q < parents.len()
            invariant
                j < found@.len(),
                q <= parents@.len(),
                sources == edges@.map_values(|e: (String, Vec<String>)| e.0@),
                string_views(found@).no_duplicates(),
                forall|k: int| 0 <= k < found@.len() ==> sources.contains(#[trigger] string_views(found@)[k]),
                forall|k: int| 0 <= k < found@.len() ==> depends_transitively(edges@, target@, #[trigger] string_views(found@)[k]),
                forall|s: Seq<char>| depends_on(edges@, s, target@) ==> #[trigger] string_views(found@).contains(s),
                forall|k: int, s: Seq<char>|
                    0 <= k < j && #[trigger] depends_on(edges@, s, string_views(found@)[k]) ==> string_views(found@).contains(s),
                forall|s: Seq<char>| string_views(parents@).contains(s) <==> depends_on(edges@, s, found@[j as int]@),
                forall|p: int| 0 <= p < q ==> string_views(found@).contains(#[trigger] string_views(parents@)[p]),
            decreases parents@.len() - q,
        {
            let pv = chars_of(parents[q].as_str());
            assert(string_views(parents@)[q as int] == pv@);
            assert(string_views(parents@).contains(pv@));
            if !list_contains(&found, &pv) {
                let ghost f0 = string_views(found@);
                proof {
                    assert(f0[j as int] == found@[j as int]@);
                    assert(depends_transitively(edges@, target@, f0[j as int]));
                    lemma_chain_step(edges@, target@, f0[j as int], pv@);
                    let w = choose|w: int| 0 <= w < edges@.len() && (#[trigger] edges@[w]).0@ == pv@ && string_views(edges@[w].1@).contains(found@[j as int]@);
                    assert(sources[w] == pv@);
                }
                found.push(parents[q].clone());
                assert(string_views(found@) =~= f0.push(pv@));
                proof {
                    assert forall|k: int| 0 <= k < found@.len() implies depends_transitively(
                        edges@,
                        target@,
                        #[trigger] string_views(found@)[k],
                    ) by {
                        if k < f0.len() {
                            assert(string_views(found@)[k] == f0[k]);
                        } else {
                            assert(string_views(found@)[k] == pv@);
                        }
                    }
                    assert forall|s: Seq<char>| f0.contains(s) implies #[trigger] string_views(found@).contains(s) by {
                        let k = choose|k: int| 0 <= k < f0.len() && f0[k] == s;
                        assert(string_views(found@)[k] == s);
                    }
                    assert forall|k: int| 0 <= k < found@.len() implies sources.contains(#[trigger] string_views(found@)[k]) by {
                        if k < f0.len() {
                            assert(string_views(found@)[k] == f0[k]);
                        }
                    }
                    assert forall|p: int| 0 <= p < q + 1 implies string_views(found@).contains(
                        #[trigger] string_views(parents@)[p],
                    ) by {
                        if p < q {
                            assert(f0.contains(string_views(parents@)[p]));
                        } else {
                            assert(string_views(found@)[f0.len() as int] == pv@);
                        }
                    }
                    assert forall|k: int, s: Seq<char>|
                        0 <= k < j && #[trigger] depends_on(edges@, s, string_views(found@)[k]) implies string_views(
                        found@,
                    ).contains(s) by {
                        assert(string_views(found@)[k] == f0[k]);
                        assert(f0.contains(s));
                    }
                }
            }
            q = q + 1;
        }
        proof {
            assert forall|k: int, s: Seq<char>|
                0 <= k < j + 1 && #[trigger] depends_on(edges@, s, string_views(found@)[k]) implies string_views(
                found@,
            ).contains(s) by {
                if k == j {
                    assert(string_views(found@)[k] == found@[j as int]@);
                    assert(string_views(parents@).contains(s));
                    let p = choose|p: int| 0 <= p < string_views(parents@).len() && string_views(parents@)[p] == s;
                }
            }
            crate::groups::lemma_distinct_within(string_views(found@), sources);
        }
        j = j + 1;
    }
    let r = sorted_distinct(&found);
    proof {
        assert forall|s: Seq<char>| #[trigger] string_views(r@).contains(s) implies depends_transitively(
            edges@,
            target@,
            s,
        ) by {
            let k = choose|k: int| 0 <= k < string_views(found@).len() && string_views(found@)[k] == s;
        }
        assert forall|m: Seq<char>, s: Seq<char>|
            string_views(r@).contains(m) && depends_on(edges@, s, m) implies string_views(r@).contains(s) by {
            let k = choose|k: int| 0 <= k < string_views(found@).len() && string_views(found@)[k] == m;
        }
    }
    r
}

/// The target as the compiler keys it: trimmed, with `/` for `\`.
pub open spec fn normalize_target_spec(value: Seq<char>) -> Seq<char> {
    trim(value).map_values(|c: char| if c == '\\' { '/' } else { c })
}

pub fn normalize_compiler_target(value: &str) -> (r: String)
    ensures
        r@ == normalize_target_spec(value@),
{
    let t = trimmed(&chars_of(value));
    let mut out: Vec<char> = Vec::new();
    let mut i: usize = 0;
    while i < t.len()
        invariant
            i <= t@.len(),
            out@ =~= t@.take(i as int).map_values(|c: char| if c == '\\' { '/' } else { c }),
        decreases t.len() - i,
    {
        let c = t[i];
        out.push(if c == '\\' { '/' } else { c });
        i = i + 1;
    }
    assert(t@.take(t@.len() as int) =~= t@);
    string_of(&out)
}

/// The file-name key of a projection: ASCII letters, digits, `-` and `_`
/// kept, every other character replaced by `_`.
pub open spec fn projection_key_spec(value: Seq<char>) -> Seq<char> {
    value.map_values(|c: char| if is_ascii_alnum(c) || c == '-' || c == '_' { c } else { '_' })
}

pub fn compiler_projection_key(value: &str) -> (r: String)
    ensures
        r@ == projection_key_spec(value@),
{
    let v = chars_of(value);
    let mut out: Vec<char> = Vec::new();
    let mut i: usize = 0;
    while i < v.len()
        invariant
            i <= v@.len(),
            out@ =~= v@.take(i as int).map_values(
                |c: char| if is_ascii_alnum(c) || c == '-' || c == '_' { c } else { '_' },
            ),
        decreases v.len() - i,
    {
        let c = v[i];
        out.push(if crate::text::is_alnum(c) || c == '-' || c == '_' { c } else { '_' });
        i = i + 1;
    }
    assert(v@.take(v@.len() as int) =~= v@);
    string_of(&out)
}

} // verus!
