//! Window and monitor matching for `--target`: given what is visible at
//! freeze time, deterministically pick what the query means.
//!
//! All comparison is case-insensitive; better match kinds always beat
//! worse ones; within a kind the front-most window (highest z) wins, then
//! the lowest enumeration index. Title matches outrank app-name matches,
//! so `--target "Notepad"` prefers a window titled Notepad over any window
//! merely owned by Notepad.exe.

use vstd::prelude::*;
use crate::text::{
    chars_of, contains, has_infix, has_prefix, same_chars, starts_with, string_of, to_lowercase,
    trim, trimmed, unicode_lower,
};

verus! {

/// A visible window at freeze time, in enumeration order.
#[derive(Debug, Clone, PartialEq, Eq)]
pub struct WindowCandidate {
    pub title: String,
    pub app: String,
    /// Stacking order; higher is closer to the front.
    pub z: i32,
}

/// How well a (lowercased) query matched a window, best first: exact
/// title 4, title prefix 3, title substring 2, exact app name 1, app
/// substring 0.
pub open spec fn kind_rank(q: Seq<char>, title: Seq<char>, app: Seq<char>) -> Option<int> {
    if title == q {
        Some(4)
    } else if has_prefix(title, q) {
        Some(3)
    } else if has_infix(title, q) {
        Some(2)
    } else if app == q {
        Some(1)
    } else if has_infix(app, q) {
        Some(0)
    } else {
        None
    }
}

/// How well `query` matches candidate `c`, case-insensitively.
pub open spec fn window_rank(query: Seq<char>, c: WindowCandidate) -> Option<int> {
    kind_rank(unicode_lower(query), unicode_lower(c.title@), unicode_lower(c.app@))
}

/// Candidate `i` is preferred to candidate `j`: a better match kind, then
/// the front-most, then the lower index.
pub open spec fn window_beats(query: Seq<char>, cs: Seq<WindowCandidate>, i: int, j: int) -> bool {
    let ri = window_rank(query, cs[i])->Some_0;
    let rj = window_rank(query, cs[j])->Some_0;
    ||| ri > rj
    ||| ri == rj && cs[i].z > cs[j].z
    ||| ri == rj && cs[i].z == cs[j].z && i < j
}

fn match_rank(q: &Vec<char>, c: &WindowCandidate) -> (r: Option<u8>)
    ensures
        match r {
            Some(k) => kind_rank(q@, unicode_lower(c.title@), unicode_lower(c.app@)) == Some(k as int),
            None => kind_rank(q@, unicode_lower(c.title@), unicode_lower(c.app@)) is None,
        },
{
    let title = chars_of(to_lowercase(c.title.as_str()).as_str());
    let app = chars_of(to_lowercase(c.app.as_str()).as_str());
    if same_chars(&title, q) {
        Some(4)
    } else if starts_with(&title, q) {
        Some(3)
    } else if contains(&title, q) {
        Some(2)
    } else if same_chars(&app, q) {
        Some(1)
    } else if contains(&app, q) {
        Some(0)
    } else {
        None
    }
}

/// Pick the best candidate for `query`: the index into `candidates`, or
/// `None` when nothing matches. An empty (or all-whitespace) query matches
/// nothing.
pub fn select(query: &str, candidates: &[WindowCandidate]) -> (r: Option<usize>)
    ensures
        trim(query@).len() == 0 ==> r is None,
        trim(query@).len() > 0 ==> match r {
            None => forall|j: int|
                0 <= j < candidates@.len() ==> #[trigger] window_rank(trim(query@), candidates@[j]) is None,
            Some(i) => {
                &&& i < candidates@.len()
                &&& window_rank(trim(query@), candidates@[i as int]) is Some
                &&& forall|j: int|
                    0 <= j < candidates@.len() && j != i && (#[trigger] window_rank(
                        trim(query@),
                        candidates@[j],
                    )) is Some ==> window_beats(trim(query@), candidates@, i as int, j)
            },
        },
{
    let t = trimmed(&chars_of(query));
    if t.len() == 0 {
        return None;
    }
    let ghost tq = t@;
    let q = chars_of(to_lowercase(string_of(&t).as_str()).as_str());
    let mut best: Option<(usize, u8, i32)> = None;
    let mut i: usize = 0;
    while i < candidates.len()
        invariant
            i <= candidates@.len(),
            tq == trim(query@),
            q@ == unicode_lower(tq),
            match best {
                None => forall|j: int| 0 <= j < i ==> #[trigger] window_rank(tq, candidates@[j]) is None,
                Some((bi, br, bz)) => {
                    &&& bi < i
                    &&& window_rank(tq, candidates@[bi as int]) == Some(br as int)
                    &&& bz == candidates@[bi as int].z
                    &&& forall|j: int|
                        0 <= j < i && j != bi && (#[trigger] window_rank(tq, candidates@[j])) is Some
                            ==> window_beats(tq, candidates@, bi as int, j)
                },
            },
        decreases candidates@.len() - i,
    {
        let c = &candidates[i];
        match match_rank(&q, c) {
            None => {},
            Some(k) => {
                let better = match best {
                    None => true,
                    Some((_, br, bz)) => k > br || (k == br && c.z > bz),
                };
                if better {
                    best = Some((i, k, c.z));
                }
            },
        }
        i = i + 1;
    }
    match best {
        None => None,
        Some((bi, _, _)) => Some(bi),
    }
}

/// How well a (lowercased) query matches a (lowercased) monitor name:
/// exact 2, prefix 1, substring 0.
pub open spec fn name_rank(q: Seq<char>, name: Seq<char>) -> Option<int> {
    if name == q {
        Some(2)
    } else if has_prefix(name, q) {
        Some(1)
    } else if has_infix(name, q) {
        Some(0)
    } else {
        None
    }
}

pub open spec fn monitor_rank(query: Seq<char>, name: String) -> Option<int> {
    name_rank(unicode_lower(trim(query)), unicode_lower(name@))
}

/// Monitor `i` matches at the best rank any monitor reaches.
pub open spec fn best_monitor(query: Seq<char>, names: Seq<String>, i: int) -> bool {
    &&& monitor_rank(query, names[i]) is Some
    &&& forall|j: int|
        0 <= j < names.len() && (#[trigger] monitor_rank(query, names[j])) is Some ==> monitor_rank(
            query,
            names[j],
        )->Some_0 <= monitor_rank(query, names[i])->Some_0
}

fn name_match(q: &Vec<char>, name: &String) -> (r: Option<u8>)
    ensures
        match r {
            Some(k) => name_rank(q@, unicode_lower(name@)) == Some(k as int),
            None => name_rank(q@, unicode_lower(name@)) is None,
        },
{
    let n = chars_of(to_lowercase(name.as_str()).as_str());
    if same_chars(&n, q) {
        Some(2)
    } else if starts_with(&n, q) {
        Some(1)
    } else if contains(&n, q) {
        Some(0)
    } else {
        None
    }
}

/// The monitors whose names match `query`, best rank only, in the order
/// given. Unlike windows, monitors have no stacking order to break a tie,
/// so every monitor at the best rank comes back and the caller refuses
/// more than one. An empty query matches nothing.
pub fn select_monitors(query: &str, names: &[String]) -> (r: Vec<usize>)
    ensures
        unicode_lower(trim(query@)).len() == 0 ==> r@.len() == 0,
        unicode_lower(trim(query@)).len() > 0 ==> {
            &&& forall|k: int, l: int| 0 <= k < l < r@.len() ==> r@[k] < r@[l]
            &&& forall|k: int| 0 <= k < r@.len() ==> r@[k] < names@.len()
            &&& forall|i: int|
                0 <= i < names@.len() ==> (r@.contains(i as usize) <==> best_monitor(
                    query@,
                    names@,
                    i,
                ))
        },
{
    let t = trimmed(&chars_of(query));
    let q = chars_of(to_lowercase(string_of(&t).as_str()).as_str());
    if q.len() == 0 {
        return Vec::new();
    }
    let mut best: Option<u8> = None;
    let mut i: usize = 0;
    while i < names.len()
        invariant
            i <= names@.len(),
            q@ == unicode_lower(trim(query@)),
            match best {
                None => forall|j: int| 0 <= j < i ==> (#[trigger] monitor_rank(query@, names@[j])) is None,
                Some(b) => {
                    &&& exists|j: int| 0 <= j < i && #[trigger] monitor_rank(query@, names@[j]) == Some(b as int)
                    &&& forall|j: int|
                        0 <= j < i && (#[trigger] monitor_rank(query@, names@[j])) is Some
                            ==> monitor_rank(query@, names@[j])->Some_0 <= b
                },
            },
        decreases names@.len() - i,
    {
        let m = name_match(&q, &names[i]);
        proof {
            assert(monitor_rank(query@, names@[i as int]) == match m {
                Some(k) => Some(k as int),
                None => None::<int>,
            });
        }
        match m {
            None => {},
            Some(k) => {
                match best {
                    None => { best = Some(k); },
                    Some(b) => if k > b {
                        best = Some(k);
                    },
                }
            },
        }
        i = i + 1;
    }
    let mut r: Vec<usize> = Vec::new();
    let b = match best {
        None => {
            assert forall|i: int| 0 <= i < names@.len() implies (r@.contains(i as usize) <==> best_monitor(query@, names@, i)) by {
                assert(monitor_rank(query@, names@[i]) is None);
            }
            return r;
        },
        Some(b) => b,
    };
    let mut i: usize = 0;
    while i < names.len()
        invariant
            i <= names@.len(),
            q@ == unicode_lower(trim(query@)),
            exists|j: int| 0 <= j < names@.len() && #[trigger] monitor_rank(query@, names@[j]) == Some(b as int),
            forall|j: int|
                0 <= j < names@.len() && (#[trigger] monitor_rank(query@, names@[j])) is Some
                    ==> monitor_rank(query@, names@[j])->Some_0 <= b,
            forall|k: int, l: int| 0 <= k < l < r@.len() ==> r@[k] < r@[l],
            forall|k: int| 0 <= k < r@.len() ==> r@[k] < i,
            forall|j: int|
                0 <= j < i ==> (r@.contains(j as usize) <==> monitor_rank(query@, names@[j]) == Some(b as int)),
        decreases names@.len() - i,
    {
        let m = name_match(&q, &names[i]);
        proof {
            assert(monitor_rank(query@, names@[i as int]) == match m {
                Some(k) => Some(k as int),
                None => None::<int>,
            });
        }
        let hit = match m {
            Some(k) => k == b,
            None => false,
        };
        if hit {
            let ghost old_r = r@;
            r.push(i);
            proof {
                assert forall|j: int| 0 <= j < i + 1 implies (r@.contains(j as usize) <==> monitor_rank(query@, names@[j]) == Some(b as int)) by {
                    if j < i {
                        if old_r.contains(j as usize) {
                            let idx = choose|idx: int| 0 <= idx < old_r.len() && old_r[idx] == j as usize;
                            assert(r@[idx] == j as usize);
                        }
                        if r@.contains(j as usize) {
                            let idx = choose|idx: int| 0 <= idx < r@.len() && r@[idx] == j as usize;
                            assert(idx < old_r.len());
                            assert(old_r[idx] == j as usize);
                        }
                    } else {
                        assert(r@[r@.len() - 1] == i);
                    }
                }
            }
        } else {
            proof {
                assert forall|j: int| 0 <= j < i + 1 implies (r@.contains(j as usize) <==> monitor_rank(query@, names@[j]) == Some(b as int)) by {
                    if j == i && r@.contains(j as usize) {
                        let idx = choose|idx: int| 0 <= idx < r@.len() && r@[idx] == j as usize;
                        assert(r@[idx] < i);
                    }
                }
            }
        }
        i = i + 1;
    }
    assert forall|i: int| 0 <= i < names@.len() implies (r@.contains(i as usize) <==> best_monitor(query@, names@, i)) by {
        if monitor_rank(query@, names@[i]) == Some(b as int) {
        }
    }
    r
}

/// A window is a match exactly when its lowercased title or its lowercased
/// app name contains the lowercased query, so a window found only through
/// its app name still matches; a title hit ranks above every app-name-only
/// hit, and an exact app name ranks above an app name that merely contains
/// the query.
pub proof fn lemma_a_window_matches_by_title_or_app(query: Seq<char>, c: WindowCandidate)
    ensures
        ({
            let q = unicode_lower(query);
            let title = unicode_lower(c.title@);
            let app = unicode_lower(c.app@);
            let r = window_rank(query, c);
            &&& r is Some <==> (has_infix(title, q) || has_infix(app, q))
            &&& has_infix(title, q) ==> r->Some_0 >= 2
            &&& title == q ==> r == Some(4int)
            &&& !has_infix(title, q) && app == q ==> r == Some(1int)
            &&& !has_infix(title, q) && app != q && has_infix(app, q) ==> r == Some(0int)
        }),
{
    let q = unicode_lower(query);
    let title = unicode_lower(c.title@);
    let app = unicode_lower(c.app@);
    if title == q {
        assert(title.subrange(0int, 0int + q.len()) =~= q);
        assert(has_infix(title, q));
    }
    if has_prefix(title, q) {
        assert(title.subrange(0int, 0int + q.len()) =~= title.take(q.len() as int));
        assert(has_infix(title, q));
    }
    if app == q {
        assert(app.subrange(0int, 0int + q.len()) =~= q);
        assert(has_infix(app, q));
    }
}

} // verus!
