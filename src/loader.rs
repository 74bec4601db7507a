//! Which files of the data directory become test cases, and how.
use vstd::prelude::*;
use crate::model::{QuestionSet, RunError, TestCase};
use crate::text::{
    contains_str, ends_with, has_part, has_prefix, has_suffix, lemma_before_total,
    lemma_before_transitive, same_text, starts_with, text_before, text_lt,
};

verus! {

/// A question-set file's name starts with `questions` and ends with `.json`.
pub open spec fn question_file(name: Seq<char>) -> bool {
    has_prefix(name, "questions"@) && has_suffix(name, ".json"@)
}

/// The key of a file: its name without the `.json` extension.
pub open spec fn key_of(name: Seq<char>) -> Seq<char> {
    if has_suffix(name, ".json"@) {
        name.take(name.len() - 5)
    } else {
        name
    }
}

/// A file is loaded when it is a question-set file whose key holds the filter,
/// if there is one.
pub open spec fn selected(name: Seq<char>, filter: Option<String>) -> bool {
    question_file(name) && match filter {
        Some(f) => has_part(key_of(name), f@),
        None => true,
    }
}

/// Some element of `v` reads `x`.
pub open spec fn holds_text(v: Seq<String>, x: Seq<char>) -> bool {
    exists|k: int| 0 <= k < v.len() && v[k]@ == x
}

/// The elements of `v` are in strictly ascending order.
pub open spec fn strictly_sorted(v: Seq<String>) -> bool {
    forall|i: int, j: int| 0 <= i < j < v.len() ==> text_before(v[i]@, v[j]@)
}

pub fn is_question_file(name: &str) -> (r: bool)
    ensures
        r == question_file(name@),
{
    starts_with(name, "questions") && ends_with(name, ".json")
}

pub fn key_for(name: &str) -> (r: String)
    ensures
        r@ == key_of(name@),
{
    if ends_with(name, ".json") {
        let n = name.unicode_len();
        proof {
            reveal_strlit(".json");
        }
        String::from_str(name.substring_char(0, n - 5))
    } else {
        String::from_str(name)
    }
}

/// Whether the file called `name` is to be loaded under `filter`.
pub fn is_selected(name: &str, filter: &Option<String>) -> (r: bool)
    ensures
        r == selected(name@, *filter),
{
    if !is_question_file(name) {
        return false;
    }
    match filter {
        Some(f) => {
            let key = key_for(name);
            contains_str(key.as_str(), f.as_str())
        },
        None => true,
    }
}

/// Adds `x` to the ascending list `v` unless it is there already.
fn insert_sorted(v: &mut Vec<String>, x: String)
    requires
        strictly_sorted(old(v)@),
    ensures
        strictly_sorted(final(v)@),
        forall|y: Seq<char>| holds_text(final(v)@, y) <==> (holds_text(old(v)@, y) || y == x@),
{
    let n = v.len();
    let mut p: usize = 0;
    while p < n && text_lt(v[p].as_str(), x.as_str())
        invariant
            n == v@.len(),
            *v == *old(v),
            p <= n,
            forall|k: int| 0 <= k < p ==> text_before(v@[k]@, x@),
        decreases n - p,
    {
        p += 1;
    }
    if p < n && same_text(v[p].as_str(), x.as_str()) {
        proof {
            assert(v@[p as int]@ == x@);
            assert(holds_text(v@, x@));
        }
        return;
    }
    let ghost pre = v@;
    let ghost xv = x@;
    proof {
        assert forall|k: int| p <= k < n implies text_before(xv, pre[k]@) by {
            lemma_before_total(pre[p as int]@, xv);
            if k > p {
                lemma_before_transitive(xv, pre[p as int]@, pre[k]@);
            }
        }
    }
    v.insert(p, x);
    proof {
        assert forall|i: int, j: int| 0 <= i < j < v@.len() implies text_before(
            v@[i]@,
            v@[j]@,
        ) by {
            if j < p {
            } else if i < p && j == p {
            } else if i < p {
                lemma_before_transitive(pre[i]@, xv, pre[j - 1]@);
            } else if i == p {
            } else {
            }
        }
        assert forall|y: Seq<char>| holds_text(v@, y) <==> (holds_text(pre, y) || y == xv) by {
            if holds_text(v@, y) {
                let k = choose|k: int| 0 <= k < v@.len() && v@[k]@ == y;
                if k < p {
                    assert(pre[k]@ == y);
                } else if k > p {
                    assert(pre[k - 1]@ == y);
                }
            }
            if holds_text(pre, y) {
                let k = choose|k: int| 0 <= k < pre.len() && pre[k]@ == y;
                if k < p {
                    assert(v@[k]@ == y);
                } else {
                    assert(v@[k + 1]@ == y);
                }
            }
            if y == xv {
                assert(v@[p as int]@ == y);
            }
        }
        assert(pre == old(v)@ && xv == x@);
        assert(forall|y: Seq<char>| #[trigger] holds_text(v@, y) <==> (holds_text(old(v)@, y) || y == x@));
    }
}

/// The names of the files to load, without repeats and in ascending order: those
/// among `names` that are question-set files whose key holds the filter.
pub fn select_files(names: &Vec<String>, filter: &Option<String>) -> (r: Vec<String>)
    ensures
        strictly_sorted(r@),
        forall|x: Seq<char>|
            #![trigger holds_text(r@, x)]
            #![trigger holds_text(names@, x)]
            holds_text(r@, x) <==> (holds_text(names@, x) && selected(x, *filter)),
{
    let mut r: Vec<String> = Vec::new();
    let mut i: usize = 0;
    while i < names.len()
        invariant
            i <= names@.len(),
            strictly_sorted(r@),
            forall|x: Seq<char>| #[trigger] holds_text(r@, x) <==> (holds_text(
                names@.take(i as int),
                x,
            ) && selected(x, *filter)),
        decreases names@.len() - i,
    {
        let name = &names[i];
        let ghost before = r@;
        let sel = is_selected(name.as_str(), filter);
        if sel {
            insert_sorted(&mut r, name.clone());
        }
        proof {
            let s1 = names@.take(i + 1);
            let s0 = names@.take(i as int);
            assert(s1 =~= s0.push(names@[i as int]));
            assert forall|x: Seq<char>| holds_text(s1, x) <==> (holds_text(s0, x) || x
                == names@[i as int]@) by {
                if holds_text(s1, x) {
                    let k = choose|k: int| 0 <= k < s1.len() && s1[k]@ == x;
                    if k < i {
                        assert(s0[k]@ == x);
                    }
                }
                if holds_text(s0, x) {
                    let k = choose|k: int| 0 <= k < s0.len() && s0[k]@ == x;
                    assert(s1[k]@ == x);
                }
                if x == names@[i as int]@ {
                    assert(s1[i as int]@ == x);
                }
            }
            if !sel {
                assert(r@ == before);
            }
            assert forall|x: Seq<char>| holds_text(r@, x) <==> (holds_text(s1, x) && selected(
                x,
                *filter,
            )) by {
                assert(holds_text(before, x) <==> (holds_text(s0, x) && selected(x, *filter)));
            }
        }
        i += 1;
    }
    proof {
        assert(names@.take(names@.len() as int) =~= names@);
        assert forall|x: Seq<char>| holds_text(r@, x) <==> (holds_text(names@, x) && selected(
            x,
            *filter,
        )) by {
            assert(holds_text(r@, x) <==> (holds_text(names@.take(i as int), x) && selected(
                x,
                *filter,
            )));
        }
    }
    r
}

proof fn lemma_push_members(v: Seq<String>, e: String)
    ensures
        forall|x: Seq<char>| #[trigger] holds_text(v.push(e), x) <==> (holds_text(v, x) || x == e@),
{
    assert forall|x: Seq<char>| #[trigger] holds_text(v.push(e), x) <==> (holds_text(v, x) || x
        == e@) by {
        let w = v.push(e);
        if holds_text(w, x) {
            let k = choose|k: int| 0 <= k < w.len() && w[k]@ == x;
            if k < v.len() {
                assert(v[k]@ == x);
            }
        }
        if holds_text(v, x) {
            let k = choose|k: int| 0 <= k < v.len() && v[k]@ == x;
            assert(w[k]@ == x);
        }
        if x == e@ {
            assert(w[v.len() as int]@ == x);
        }
    }
}

proof fn lemma_tail_members(a: Seq<String>)
    requires
        strictly_sorted(a),
        a.len() > 0,
    ensures
        strictly_sorted(a.drop_first()),
        forall|x: Seq<char>| #[trigger] holds_text(a.drop_first(), x) <==> (holds_text(a, x) && x
            != a[0]@),
{
    let t = a.drop_first();
    assert forall|x: Seq<char>| #[trigger] holds_text(t, x) <==> (holds_text(a, x) && x != a[0]@) by {
        if holds_text(t, x) {
            let k = choose|k: int| 0 <= k < t.len() && t[k]@ == x;
            assert(a[k + 1]@ == x);
            assert(text_before(a[0]@, a[k + 1]@));
            lemma_before_total(x, x);
        }
        if holds_text(a, x) && x != a[0]@ {
            let k = choose|k: int| 0 <= k < a.len() && a[k]@ == x;
            assert(t[k - 1]@ == x);
        }
    }
}

/// Two strictly ascending lists with the same members hold the same texts in the
/// same order.
pub proof fn lemma_sorted_same_members(a: Seq<String>, b: Seq<String>)
    requires
        strictly_sorted(a),
        strictly_sorted(b),
        forall|x: Seq<char>| holds_text(a, x) <==> holds_text(b, x),
    ensures
        a.len() == b.len(),
        forall|k: int| 0 <= k < a.len() ==> #[trigger] a[k]@ == b[k]@,
    decreases a.len(),
{
    if a.len() == 0 {
        if b.len() > 0 {
            assert(holds_text(b, b[0]@));
        }
    } else if b.len() == 0 {
        assert(holds_text(a, a[0]@));
    } else {
        assert(holds_text(a, a[0]@));
        assert(holds_text(b, b[0]@));
        let k = choose|k: int| 0 <= k < b.len() && b[k]@ == a[0]@;
        let j = choose|j: int| 0 <= j < a.len() && a[j]@ == b[0]@;
        if k > 0 && j > 0 {
            assert(text_before(b[0]@, b[k]@));
            assert(text_before(a[0]@, a[j]@));
            lemma_before_total(a[0]@, b[0]@);
        }
        assert(a[0]@ == b[0]@);
        lemma_tail_members(a);
        lemma_tail_members(b);
        lemma_sorted_same_members(a.drop_first(), b.drop_first());
        assert forall|k: int| 0 <= k < a.len() implies #[trigger] a[k]@ == b[k]@ by {
            if k > 0 {
                assert(a.drop_first()[k - 1]@ == b.drop_first()[k - 1]@);
            }
        }
    }
}

/// The entries of `u`, in order, whose key holds `s`.
pub open spec fn keyed(u: Seq<String>, s: Seq<char>) -> Seq<String>
    decreases u.len(),
{
    if u.len() == 0 {
        seq![]
    } else if has_part(key_of(u.last()@), s) {
        keyed(u.drop_last(), s).push(u.last())
    } else {
        keyed(u.drop_last(), s)
    }
}

proof fn lemma_keyed(u: Seq<String>, s: Seq<char>)
    requires
        strictly_sorted(u),
    ensures
        strictly_sorted(keyed(u, s)),
        forall|x: Seq<char>| #[trigger] holds_text(keyed(u, s), x) <==> (holds_text(u, x) && has_part(
            key_of(x),
            s,
        )),
    decreases u.len(),
{
    if u.len() > 0 {
        let d = u.drop_last();
        let l = u.last();
        lemma_keyed(d, s);
        assert(u =~= d.push(l));
        lemma_push_members(d, l);
        let r = keyed(d, s);
        lemma_push_members(r, l);
        if has_part(key_of(l@), s) {
            assert forall|i: int, j: int| 0 <= i < j < r.push(l).len() implies text_before(
                r.push(l)[i]@,
                r.push(l)[j]@,
            ) by {
                if j == r.len() {
                    assert(holds_text(r, r[i]@));
                    assert(holds_text(d, r[i]@));
                    let k = choose|k: int| 0 <= k < d.len() && d[k]@ == r[i]@;
                    assert(text_before(u[k]@, u[u.len() - 1]@));
                } else {
                    assert(r.push(l)[i] == r[i]);
                    assert(r.push(l)[j] == r[j]);
                }
            }
        }
    }
}

/// Filtering by `s` keeps a subset of what is kept without a filter: exactly the
/// files whose key holds `s`, and in the same order.
pub proof fn lemma_filter_subset(
    names: Seq<String>,
    s: String,
    unfiltered: Seq<String>,
    filtered: Seq<String>,
)
    requires
        strictly_sorted(unfiltered),
        strictly_sorted(filtered),
        forall|x: Seq<char>| holds_text(unfiltered, x) <==> (holds_text(names, x) && selected(x, None)),
        forall|x: Seq<char>| holds_text(filtered, x) <==> (holds_text(names, x) && selected(x, Some(s))),
    ensures
        forall|x: Seq<char>| holds_text(filtered, x) ==> holds_text(unfiltered, x),
        forall|x: Seq<char>| holds_text(filtered, x) <==> (holds_text(unfiltered, x) && has_part(key_of(x), s@)),
        filtered.len() == keyed(unfiltered, s@).len(),
        forall|k: int| 0 <= k < filtered.len() ==> #[trigger] filtered[k]@ == keyed(unfiltered, s@)[k]@,
{
    lemma_keyed(unfiltered, s@);
    lemma_sorted_same_members(filtered, keyed(unfiltered, s@));
}

/// Discovery yields exactly one case per question-set file among `names`: the
/// cases' file names are those files, each once, and each key is the file name
/// without its extension.
pub proof fn lemma_one_case_per_file(
    names: Seq<String>,
    chosen: Seq<String>,
    files: Seq<LoadedFile>,
    cases: Seq<TestCase>,
)
    requires
        strictly_sorted(chosen),
        forall|x: Seq<char>| holds_text(chosen, x) <==> (holds_text(names, x) && selected(x, None)),
        files.len() == chosen.len(),
        forall|k: int| 0 <= k < files.len() ==> #[trigger] files[k].filename@ == chosen[k]@,
        cases.len() == files.len(),
        forall|k: int|
            0 <= k < cases.len() ==> #[trigger] cases[k].filename@ == files[k].filename@
                && cases[k].key@ == key_of(files[k].filename@),
    ensures
        forall|x: Seq<char>|
            (exists|k: int| 0 <= k < cases.len() && #[trigger] cases[k].filename@ == x) <==> (
            holds_text(names, x) && question_file(x)),
        forall|i: int, j: int|
            0 <= i < j < cases.len() ==> #[trigger] cases[i].filename@ != #[trigger] cases[j].filename@,
        forall|k: int| 0 <= k < cases.len() ==> #[trigger] cases[k].key@ == key_of(cases[k].filename@),
{
    assert forall|x: Seq<char>|
        (exists|k: int| 0 <= k < cases.len() && #[trigger] cases[k].filename@ == x) <==> (
        holds_text(names, x) && question_file(x)) by {
        if exists|k: int| 0 <= k < cases.len() && #[trigger] cases[k].filename@ == x {
            let k = choose|k: int| 0 <= k < cases.len() && #[trigger] cases[k].filename@ == x;
            assert(files[k].filename@ == chosen[k]@);
            assert(holds_text(chosen, x));
        }
        if holds_text(names, x) && question_file(x) {
            assert(holds_text(chosen, x));
            let k = choose|k: int| 0 <= k < chosen.len() && chosen[k]@ == x;
            assert(files[k].filename@ == chosen[k]@);
            assert(cases[k].filename@ == x);
        }
    }
    assert forall|i: int, j: int|
        0 <= i < j < cases.len() implies #[trigger] cases[i].filename@ != #[trigger] cases[j].filename@ by {
        assert(files[i].filename@ == chosen[i]@);
        assert(files[j].filename@ == chosen[j]@);
        assert(text_before(chosen[i]@, chosen[j]@));
        lemma_before_total(chosen[i]@, chosen[i]@);
    }
}

/// A file chosen for loading, with its content where it has the expected shape.
pub struct LoadedFile {
    pub filename: String,
    pub set: Option<QuestionSet>,
}

/// Every file parsed.
pub open spec fn all_parsed(files: Seq<LoadedFile>) -> bool {
    forall|k: int| 0 <= k < files.len() ==> files[k].set is Some
}

#[verifier::loop_isolation(false)]
/// Turns the loaded files into test cases, one per file and in the same order.
/// Fails naming the first file that did not parse, or when there are no files.
pub fn build_test_cases(files: Vec<LoadedFile>) -> (r: Result<Vec<TestCase>, RunError>)
    ensures
        files@.len() == 0 ==> r == Err::<Vec<TestCase>, RunError>(RunError::Empty),
        !all_parsed(files@) ==> (r matches Err(RunError::Parse(f)) && exists|k: int|
            0 <= k < files@.len() && files@[k].set is None && f@ == files@[k].filename@
                && all_parsed(files@.take(k))),
        files@.len() > 0 && all_parsed(files@) ==> r is Ok,
        r matches Ok(cases) ==> (cases@.len() == files@.len() && forall|k: int|
            0 <= k < cases@.len() ==> {
                &&& cases@[k].filename@ == files@[k].filename@
                &&& cases@[k].key@ == key_of(files@[k].filename@)
                &&& cases@[k].metadata == files@[k].set->Some_0.metadata
                &&& cases@[k].questions == files@[k].set->Some_0.questions
            }),
{
    if files.len() == 0 {
        return Err(RunError::Empty);
    }
    let ghost orig = files@;
    let n = files.len();
    let mut rest = files;
    let mut cases: Vec<TestCase> = Vec::new();
    let mut i: usize = 0;
    while i < n
        invariant
            n == orig.len(),
            i <= n,
            rest@ == orig.skip(i as int),
            all_parsed(orig.take(i as int)),
            cases@.len() == i,
            forall|k: int|
                0 <= k < i ==> {
                    &&& cases@[k].filename@ == orig[k].filename@
                    &&& cases@[k].key@ == key_of(orig[k].filename@)
                    &&& cases@[k].metadata == orig[k].set->Some_0.metadata
                    &&& cases@[k].questions == orig[k].set->Some_0.questions
                },
        decreases n - i,
    {
        let file = rest.remove(0);
        proof {
            assert(file == orig[i as int]);
            assert(rest@ =~= orig.skip(i + 1));
        }
        match file.set {
            Some(set) => {
                let key = key_for(file.filename.as_str());
                cases.push(
                    TestCase {
                        filename: file.filename,
                        key,
                        metadata: set.metadata,
                        questions: set.questions,
                    },
                );
                proof {
                    let t1 = orig.take(i + 1);
                    let t0 = orig.take(i as int);
                    assert forall|k: int| 0 <= k < t1.len() implies #[trigger] t1[k].set is Some by {
                        if k < i {
                            assert(t0[k] == t1[k]);
                        }
                    }
                }
            },
            None => {
                proof {
                    assert(!all_parsed(orig)) by {
                        assert(orig[i as int].set is None);
                    }
                }
                return Err(RunError::Parse(file.filename));
            },
        }
        i += 1;
    }
    proof {
        assert(orig.take(n as int) =~= orig);
    }
    Ok(cases)
}

} // verus!
