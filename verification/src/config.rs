//! The configuration: the settings shared by every download and the models followed on
//! each platform.
use vstd::prelude::*;
use crate::platforms::{Model, Platform, all_platforms};
use crate::text;

verus! {

broadcast use vstd::string::group_string_axioms;

/// Settings shared by every request.
pub struct Settings {
    pub user_agent: String,
}

impl Clone for Settings {
    fn clone(&self) -> (r: Self)
        ensures
            r.user_agent@ == self.user_agent@,
    {
        Settings { user_agent: self.user_agent.clone() }
    }
}

/// The user agent that a configuration file without one gets.
pub open spec fn default_useragent_seq() -> Seq<char> {
    "Mozilla/5.0 (Windows NT 10.0; Win64; x64) AppleWebKit/537.36 (KHTML, like Gecko) Chrome/146.0.0.0 Safari/537.36 Edg/146.0.0.0"@
}

/// The user agent that a configuration file without one gets.
pub fn default_useragent() -> (r: String)
    ensures
        r@ == default_useragent_seq(),
{
    "Mozilla/5.0 (Windows NT 10.0; Win64; x64) AppleWebKit/537.36 (KHTML, like Gecko) Chrome/146.0.0.0 Safari/537.36 Edg/146.0.0.0".to_owned()
}


/// The configuration: settings and, for each platform present, the models followed there.
pub struct Config {
    pub config: Settings,
    pub platform: Vec<(Platform, Vec<Model>)>,
}

/// The names of a set of models.
pub open spec fn names_of(ms: Seq<Model>) -> Set<Seq<char>> {
    ms.map_values(|m: Model| m.username@).to_set()
}

/// The platforms present and the names followed on each.
pub open spec fn entries_view(es: Seq<(Platform, Vec<Model>)>) -> Map<Platform, Set<Seq<char>>>
    decreases es.len(),
{
    if es.len() == 0 {
        Map::empty()
    } else {
        entries_view(es.drop_last()).insert(es.last().0, names_of(es.last().1@))
    }
}

/// Each platform appears once, each name once within its platform, and every model sits
/// under its own platform.
pub open spec fn entries_wf(es: Seq<(Platform, Vec<Model>)>) -> bool {
    &&& forall|i: int, j: int| 0 <= i < j < es.len() ==> es[i].0 != es[j].0
    &&& forall|i: int| 0 <= i < es.len() ==> models_wf(es[i].0, #[trigger] es[i].1@)
}

pub open spec fn models_wf(p: Platform, ms: Seq<Model>) -> bool {
    &&& forall|k: int| 0 <= k < ms.len() ==> (#[trigger] ms[k]).platform == p
    &&& forall|k: int, l: int| 0 <= k < l < ms.len() ==> ms[k].username@ != ms[l].username@
}

/// The followed models as platform-and-name pairs.
pub open spec fn followed(m: Map<Platform, Set<Seq<char>>>) -> Set<(Platform, Seq<char>)> {
    Set::new(|k: (Platform, Seq<char>)| m.contains_key(k.0) && m[k.0].contains(k.1))
}

/// Following `u` on `p`.
pub open spec fn add_followed(m: Map<Platform, Set<Seq<char>>>, p: Platform, u: Seq<char>) -> Map<Platform, Set<Seq<char>>> {
    if m.contains_key(p) {
        m.insert(p, m[p].insert(u))
    } else {
        m.insert(p, set![u])
    }
}

/// No longer following `u` on `p`; a platform left empty stays present.
pub open spec fn drop_followed(m: Map<Platform, Set<Seq<char>>>, p: Platform, u: Seq<char>) -> Map<Platform, Set<Seq<char>>> {
    if m.contains_key(p) {
        m.insert(p, m[p].remove(u))
    } else {
        m
    }
}

impl Config {
    pub open spec fn view_map(&self) -> Map<Platform, Set<Seq<char>>> {
        entries_view(self.platform@)
    }

    pub open spec fn wf(&self) -> bool {
        entries_wf(self.platform@)
    }
}

pub proof fn lemma_view_at(es: Seq<(Platform, Vec<Model>)>, i: int)
    requires
        entries_wf(es),
        0 <= i < es.len(),
    ensures
        entries_view(es).contains_key(es[i].0),
        entries_view(es)[es[i].0] == names_of(es[i].1@),
    decreases es.len(),
{
    if i < es.len() - 1 {
        let pre = es.drop_last();
        assert(entries_wf(pre)) by {
            assert forall|k: int| 0 <= k < pre.len() implies models_wf(pre[k].0, #[trigger] pre[k].1@) by {
                assert(pre[k] == es[k]);
            }
        }
        lemma_view_at(pre, i);
        assert(es[i].0 != es.last().0);
    }
}

pub proof fn lemma_view_absent(es: Seq<(Platform, Vec<Model>)>, p: Platform)
    requires
        forall|i: int| 0 <= i < es.len() ==> es[i].0 != p,
    ensures
        !entries_view(es).contains_key(p),
    decreases es.len(),
{
    if es.len() > 0 {
        lemma_view_absent(es.drop_last(), p);
    }
}

pub proof fn lemma_view_update(es: Seq<(Platform, Vec<Model>)>, i: int, ms: Vec<Model>)
    requires
        entries_wf(es),
        0 <= i < es.len(),
    ensures
        entries_view(es.update(i, (es[i].0, ms))) == entries_view(es).insert(es[i].0, names_of(ms@)),
    decreases es.len(),
{
    let es2 = es.update(i, (es[i].0, ms));
    if i == es.len() - 1 {
        assert(es2.drop_last() =~= es.drop_last());
        lemma_view_absent(es.drop_last(), es[i].0);
        assert(entries_view(es2) =~= entries_view(es).insert(es[i].0, names_of(ms@)));
    } else {
        let pre = es.drop_last();
        assert(entries_wf(pre)) by {
            assert forall|k: int| 0 <= k < pre.len() implies models_wf(pre[k].0, #[trigger] pre[k].1@) by {
                assert(pre[k] == es[k]);
            }
        }
        lemma_view_update(pre, i, ms);
        assert(es2.drop_last() =~= pre.update(i, (es[i].0, ms)));
        assert(es[i].0 != es.last().0);
        assert(entries_view(es2) =~= entries_view(es).insert(es[i].0, names_of(ms@)));
    }
}

pub proof fn lemma_names_push(ms: Seq<Model>, m: Model)
    ensures
        names_of(ms.push(m)) == names_of(ms).insert(m.username@),
{
    assert(ms.push(m).map_values(|x: Model| x.username@) =~= ms.map_values(|x: Model| x.username@).push(m.username@));
    let a = ms.map_values(|x: Model| x.username@);
    Seq::<Seq<char>>::lemma_to_set_insert_commutes(a, m.username@);
    assert(a + seq![m.username@] =~= a.push(m.username@));
}

pub proof fn lemma_names_remove(ms: Seq<Model>, k: int)
    requires
        0 <= k < ms.len(),
        forall|a: int, b: int| 0 <= a < b < ms.len() ==> ms[a].username@ != ms[b].username@,
    ensures
        names_of(ms.remove(k)) == names_of(ms).remove(ms[k].username@),
{
    let u = ms[k].username@;
    let a = ms.map_values(|x: Model| x.username@);
    let b = ms.remove(k).map_values(|x: Model| x.username@);
    assert(b =~= a.remove(k));
    assert(b.to_set() =~= a.to_set().remove(u)) by {
        assert forall|v: Seq<char>| b.contains(v) <==> (a.contains(v) && v != u) by {
            if b.contains(v) {
                let j = choose|j: int| 0 <= j < b.len() && b[j] == v;
                if j < k {
                    assert(a[j] == v);
                    assert(ms[j].username@ != ms[k].username@);
                } else {
                    assert(a[j + 1] == v);
                    assert(ms[k].username@ != ms[j + 1].username@);
                }
            }
            if a.contains(v) && v != u {
                let j = choose|j: int| 0 <= j < a.len() && a[j] == v;
                if j < k {
                    assert(b[j] == v);
                } else {
                    assert(j != k);
                    assert(b[j - 1] == v);
                }
            }
        }
    }
}


fn find_name(ms: &Vec<Model>, username: &[char]) -> (r: Option<usize>)
    ensures
        r matches Some(k) ==> k < ms@.len() && ms@[k as int].username@ == username@,
        r is None ==> !names_of(ms@).contains(username@),
{
    let mut k: usize = 0;
    while k < ms.len()
        invariant
            k <= ms@.len(),
            forall|j: int| 0 <= j < k ==> ms@[j].username@ != username@,
        decreases ms@.len() - k,
    {
        let name = text::chars_of(ms[k].username.as_str());
        if text::chars_eq(name.as_slice(), username) {
            return Some(k);
        }
        k = k + 1;
    }
    proof {
        let a = ms@.map_values(|x: Model| x.username@);
        if a.contains(username@) {
            let j = choose|j: int| 0 <= j < a.len() && a[j] == username@;
            assert(ms@[j].username@ == username@);
        }
    }
    None
}

impl Config {
    /// Position of the entry for `p`.
    pub fn find_platform(&self, p: Platform) -> (r: Option<usize>)
        requires
            self.wf(),
        ensures
            r matches Some(i) ==> i < self.platform@.len() && self.platform@[i as int].0 == p,
            r is None ==> forall|i: int| 0 <= i < self.platform@.len() ==> self.platform@[i].0 != p,
    {
        let mut i: usize = 0;
        while i < self.platform.len()
            invariant
                i <= self.platform@.len(),
                forall|j: int| 0 <= j < i ==> self.platform@[j].0 != p,
            decreases self.platform@.len() - i,
        {
            if self.platform[i].0 == p {
                return Some(i);
            }
            i = i + 1;
        }
        None
    }

    /// Follows `model` on its platform; a model of the same name already there stays.
    pub fn insert_model(&mut self, model: Model)
        requires
            old(self).wf(),
        ensures
            final(self).wf(),
            final(self).view_map() == add_followed(old(self).view_map(), model.platform, model.username@),
            final(self).config == old(self).config,
    {
        let p = model.platform;
        let ghost u = model.username@;
        let ghost es = self.platform@;
        match self.find_platform(p) {
            Some(i) => {
                proof {
                    lemma_view_at(es, i as int);
                }
                let name = text::chars_of(model.username.as_str());
                let (q, mut ms) = self.platform.remove(i);
                match find_name(&ms, name.as_slice()) {
                    Some(k) => {
                        self.platform.insert(i, (q, ms));
                        assert(self.platform@ =~= es);
                        proof {
                            let a = es[i as int].1@.map_values(|x: Model| x.username@);
                            assert(a[k as int] == u);
                            assert(names_of(es[i as int].1@).contains(u));
                            assert(names_of(es[i as int].1@).insert(u) =~= names_of(es[i as int].1@));
                            assert(entries_view(es).insert(p, names_of(es[i as int].1@)) =~= entries_view(es));
                        }
                    },
                    None => {
                        let ghost old_ms = ms@;
                        ms.push(model);
                        proof {
                            lemma_names_push(old_ms, ms@.last());
                        }
                        self.platform.insert(i, (q, ms));
                        assert(self.platform@ =~= es.update(i as int, (p, ms)));
                        proof {
                            lemma_view_update(es, i as int, ms);
                            assert forall|a: int, b: int| 0 <= a < b < ms@.len() implies ms@[a].username@ != ms@[b].username@ by {
                                if b == ms@.len() - 1 {
                                    let xs = old_ms.map_values(|x: Model| x.username@);
                                    if ms@[a].username@ == ms@[b].username@ {
                                        assert(xs[a] == u);
                                    }
                                }
                            }
                            assert(models_wf(p, ms@));
                            assert forall|j: int| 0 <= j < self.platform@.len() implies models_wf(self.platform@[j].0, #[trigger] self.platform@[j].1@) by {
                                if j != i {
                                    assert(self.platform@[j] == es[j]);
                                }
                            }
                        }
                    },
                }
            },
            None => {
                proof {
                    lemma_view_absent(es, p);
                }
                let mut ms: Vec<Model> = Vec::new();
                ms.push(model);
                proof {
                    lemma_names_push(Seq::empty(), ms@[0]);
                    assert(Seq::<Model>::empty().push(ms@[0]) =~= ms@);
                    assert(names_of(Seq::<Model>::empty()) =~= Set::<Seq<char>>::empty());
                    assert(names_of(ms@) =~= set![u]);
                }
                self.platform.push((p, ms));
                proof {
                    assert(self.platform@.drop_last() =~= es);
                    assert forall|j: int| 0 <= j < self.platform@.len() implies models_wf(self.platform@[j].0, #[trigger] self.platform@[j].1@) by {
                        if j < es.len() {
                            assert(self.platform@[j] == es[j]);
                        }
                    }
                }
            },
        }
    }

    /// Stops following `username` on `p`, handing the model back if it was followed.
    pub fn remove_model(&mut self, p: Platform, username: &str) -> (r: Option<Model>)
        requires
            old(self).wf(),
        ensures
            final(self).wf(),
            final(self).view_map() == drop_followed(old(self).view_map(), p, username@),
            r is Some <==> followed(old(self).view_map()).contains((p, username@)),
            r matches Some(m) ==> m.platform == p && m.username@ == username@,
            final(self).config == old(self).config,
    {
        let ghost es = self.platform@;
        match self.find_platform(p) {
            None => {
                proof {
                    lemma_view_absent(es, p);
                }
                None
            },
            Some(i) => {
                proof {
                    lemma_view_at(es, i as int);
                }
                let name = text::chars_of(username);
                let (q, mut ms) = self.platform.remove(i);
                match find_name(&ms, name.as_slice()) {
                    None => {
                        self.platform.insert(i, (q, ms));
                        assert(self.platform@ =~= es);
                        proof {
                            assert(names_of(es[i as int].1@).remove(username@) =~= names_of(es[i as int].1@));
                            assert(entries_view(es).insert(p, names_of(es[i as int].1@)) =~= entries_view(es));
                        }
                        None
                    },
                    Some(k) => {
                        let ghost old_ms = ms@;
                        let m = ms.remove(k);
                        proof {
                            lemma_names_remove(old_ms, k as int);
                            let a = old_ms.map_values(|x: Model| x.username@);
                            assert(a[k as int] == username@);
                        }
                        self.platform.insert(i, (q, ms));
                        assert(self.platform@ =~= es.update(i as int, (p, ms)));
                        proof {
                            lemma_view_update(es, i as int, ms);
                            assert(models_wf(p, ms@)) by {
                                assert forall|a: int, b: int| 0 <= a < b < ms@.len() implies ms@[a].username@ != ms@[b].username@ by {
                                    let a2 = if a < k { a } else { a + 1 };
                                    let b2 = if b < k { b } else { b + 1 };
                                    assert(ms@[a] == old_ms[a2]);
                                    assert(ms@[b] == old_ms[b2]);
                                }
                                assert forall|c: int| 0 <= c < ms@.len() implies (#[trigger] ms@[c]).platform == p by {
                                    let c2 = if c < k { c } else { c + 1 };
                                    assert(ms@[c] == old_ms[c2]);
                                }
                            }
                            assert forall|j: int| 0 <= j < self.platform@.len() implies models_wf(self.platform@[j].0, #[trigger] self.platform@[j].1@) by {
                                if j != i {
                                    assert(self.platform@[j] == es[j]);
                                }
                            }
                        }
                        Some(m)
                    },
                }
            },
        }
    }
}


/// The plain values of a list of platform-and-name pairs.
pub open spec fn pair_views(v: Seq<(Platform, String)>) -> Seq<(Platform, Seq<char>)> {
    v.map_values(|x: (Platform, String)| (x.0, x.1@))
}

/// The pairs of the entries before `i`, and of the first `k` models of entry `i`.
pub open spec fn seen(es: Seq<(Platform, Vec<Model>)>, i: int, k: int) -> Set<(Platform, Seq<char>)> {
    Set::new(
        |x: (Platform, Seq<char>)|
            exists|j: int, l: int|
                #![trigger es[j].1@[l]]
                0 <= j <= i && j < es.len() && 0 <= l < es[j].1@.len() && (j < i || l < k) && x == (
                    es[j].0,
                    es[j].1@[l].username@,
                ),
    )
}

pub proof fn lemma_followed_all(es: Seq<(Platform, Vec<Model>)>)
    requires
        entries_wf(es),
    ensures
        followed(entries_view(es)) == seen(es, es.len() as int, 0),
{
    let m = entries_view(es);
    assert forall|x: (Platform, Seq<char>)| followed(m).contains(x) <==> seen(es, es.len() as int, 0).contains(x) by {
        if followed(m).contains(x) {
            if forall|i: int| 0 <= i < es.len() ==> es[i].0 != x.0 {
                lemma_view_absent(es, x.0);
            }
            let j = choose|j: int| 0 <= j < es.len() && es[j].0 == x.0;
            lemma_view_at(es, j);
            let a = es[j].1@.map_values(|y: Model| y.username@);
            let l = choose|l: int| 0 <= l < a.len() && a[l] == x.1;
            assert(es[j].1@[l].username@ == x.1);
        }
        if seen(es, es.len() as int, 0).contains(x) {
            let (j, l) = choose|j: int, l: int|
                #![trigger es[j].1@[l]]
                0 <= j <= es.len() && j < es.len() && 0 <= l < es[j].1@.len() && (j < es.len() || l < 0) && x == (
                    es[j].0,
                    es[j].1@[l].username@,
                );
            lemma_view_at(es, j);
            let a = es[j].1@.map_values(|y: Model| y.username@);
            assert(a[l] == x.1);
        }
    }
    assert(followed(m) =~= seen(es, es.len() as int, 0));
}

impl Config {
    /// Whether `username` is followed on `p`.
    pub fn follows(&self, p: Platform, username: &[char]) -> (r: bool)
        requires
            self.wf(),
        ensures
            r == followed(self.view_map()).contains((p, username@)),
    {
        match self.find_platform(p) {
            None => {
                proof {
                    lemma_view_absent(self.platform@, p);
                }
                false
            },
            Some(i) => {
                proof {
                    lemma_view_at(self.platform@, i as int);
                }
                let r = find_name(&self.platform[i].1, username).is_some();
                proof {
                    if r {
                        let k = choose|k: int| 0 <= k < self.platform@[i as int].1@.len() && self.platform@[i as int].1@[k].username@ == username@;
                        let a = self.platform@[i as int].1@.map_values(|y: Model| y.username@);
                        assert(a[k] == username@);
                    }
                }
                r
            },
        }
    }

    /// Every followed model as a platform-and-name pair, each once.
    pub fn all_pairs(&self) -> (r: Vec<(Platform, String)>)
        requires
            self.wf(),
        ensures
            pair_views(r@).to_set() == followed(self.view_map()),
            pair_views(r@).no_duplicates(),
    {
        let ghost es = self.platform@;
        let mut r: Vec<(Platform, String)> = Vec::new();
        let mut i: usize = 0;
        assert(pair_views(r@).to_set() =~= seen(es, 0, 0));
        while i < self.platform.len()
            invariant
                es == self.platform@,
                entries_wf(es),
                i <= es.len(),
                pair_views(r@).to_set() == seen(es, i as int, 0),
                pair_views(r@).no_duplicates(),
            decreases es.len() - i,
        {
            let p = self.platform[i].0;
            let ms = &self.platform[i].1;
            let mut k: usize = 0;
            assert(seen(es, i as int, 0) =~= seen(es, i as int, k as int));
            while k < ms.len()
                invariant
                    es == self.platform@,
                    entries_wf(es),
                    i < es.len(),
                    p == es[i as int].0,
                    *ms == es[i as int].1,
                    k <= ms@.len(),
                    pair_views(r@).to_set() == seen(es, i as int, k as int),
                    pair_views(r@).no_duplicates(),
                decreases ms@.len() - k,
            {
                let ghost x = (p, ms@[k as int].username@);
                assert(!seen(es, i as int, k as int).contains(x)) by {
                    if seen(es, i as int, k as int).contains(x) {
                        let (j, l) = choose|j: int, l: int|
                            #![trigger es[j].1@[l]]
                            0 <= j <= i && j < es.len() && 0 <= l < es[j].1@.len() && (j < i || l < k) && x == (
                                es[j].0,
                                es[j].1@[l].username@,
                            );
                        if j < i {
                            assert(es[j].0 != es[i as int].0);
                        } else {
                            assert(models_wf(es[i as int].0, es[i as int].1@));
                            assert(ms@[l].username@ != ms@[k as int].username@);
                        }
                    }
                }
                let ghost before = pair_views(r@);
                r.push((p, ms[k].username.clone()));
                proof {
                    assert(pair_views(r@) =~= before.push(x));
                    assert(!before.contains(x));
                    assert forall|a: int, b: int| 0 <= a < b < pair_views(r@).len() implies pair_views(r@)[a] != pair_views(r@)[b] by {
                        if b == before.len() {
                            assert(before[a] == pair_views(r@)[a]);
                        } else {
                            assert(before[a] != before[b]);
                        }
                    }
                    Seq::<(Platform, Seq<char>)>::lemma_to_set_insert_commutes(before, x);
                    assert(before + seq![x] =~= before.push(x));
                    assert(pair_views(r@).to_set() =~= seen(es, i as int, k + 1)) by {
                        assert forall|y: (Platform, Seq<char>)| seen(es, i as int, k + 1).contains(y) <==> (seen(es, i as int, k as int).contains(y) || y == x) by {
                            if seen(es, i as int, k + 1).contains(y) && y != x {
                                let (j, l) = choose|j: int, l: int|
                                    #![trigger es[j].1@[l]]
                                    0 <= j <= i && j < es.len() && 0 <= l < es[j].1@.len() && (j < i || l < k + 1) && y == (
                                        es[j].0,
                                        es[j].1@[l].username@,
                                    );
                                assert(seen(es, i as int, k as int).contains(y));
                            }
                            if y == x {
                                assert(es[i as int].1@[k as int] == ms@[k as int]);
                            }
                        }
                    }
                }
                k = k + 1;
            }
            assert(seen(es, i as int, ms@.len() as int) =~= seen(es, i + 1, 0)) by {
                assert forall|y: (Platform, Seq<char>)| seen(es, i + 1, 0).contains(y) implies seen(es, i as int, ms@.len() as int).contains(y) by {
                    let (j, l) = choose|j: int, l: int|
                        #![trigger es[j].1@[l]]
                        0 <= j <= i + 1 && j < es.len() && 0 <= l < es[j].1@.len() && (j < i + 1 || l < 0) && y == (
                            es[j].0,
                            es[j].1@[l].username@,
                        );
                    assert(es[j].1@[l] == es[j].1@[l]);
                }
            }
            i = i + 1;
        }
        proof {
            lemma_followed_all(es);
        }
        r
    }
}


pub proof fn lemma_followed_add(m: Map<Platform, Set<Seq<char>>>, p: Platform, u: Seq<char>)
    ensures
        followed(add_followed(m, p, u)) == followed(m).insert((p, u)),
{
    assert(followed(add_followed(m, p, u)) =~= followed(m).insert((p, u)));
}

pub proof fn lemma_followed_drop(m: Map<Platform, Set<Seq<char>>>, p: Platform, u: Seq<char>)
    ensures
        followed(drop_followed(m, p, u)) == followed(m).remove((p, u)),
{
    assert(followed(drop_followed(m, p, u)) =~= followed(m).remove((p, u)));
}

/// The models to stop and to start so that the followed models become those of a new
/// configuration.
pub struct UpdatePlan {
    pub remove: Vec<(Platform, String)>,
    pub add: Vec<(Platform, String)>,
}

/// The pairs of `pairs` that `other` does not follow, in order.
fn missing_from(pairs: &Vec<(Platform, String)>, other: &Config) -> (r: Vec<(Platform, String)>)
    requires
        other.wf(),
        pair_views(pairs@).no_duplicates(),
    ensures
        pair_views(r@).to_set() == pair_views(pairs@).to_set().difference(followed(other.view_map())),
        pair_views(r@).no_duplicates(),
{
    let ghost f = followed(other.view_map());
    let ghost all = pair_views(pairs@);
    let mut r: Vec<(Platform, String)> = Vec::new();
    let mut i: usize = 0;
    assert(pair_views(r@).to_set() =~= all.take(0).to_set().difference(f));
    while i < pairs.len()
        invariant
            i <= pairs@.len(),
            all == pair_views(pairs@),
            all.no_duplicates(),
            f == followed(other.view_map()),
            other.wf(),
            pair_views(r@).to_set() == all.take(i as int).to_set().difference(f),
            pair_views(r@).no_duplicates(),
        decreases pairs@.len() - i,
    {
        let p = pairs[i].0;
        let name = text::chars_of(pairs[i].1.as_str());
        let ghost x = all[i as int];
        let ghost before = pair_views(r@);
        proof {
            Seq::<(Platform, Seq<char>)>::lemma_to_set_insert_commutes(all.take(i as int), x);
            assert(all.take(i as int) + seq![x] =~= all.take(i + 1));
        }
        if !other.follows(p, name.as_slice()) {
            r.push((p, pairs[i].1.clone()));
            proof {
                assert(pair_views(r@) =~= before.push(x));
                assert(!before.contains(x)) by {
                    if before.contains(x) {
                        let k = choose|k: int| 0 <= k < before.len() && before[k] == x;
                        assert(before.to_set().contains(x));
                        let j = choose|j: int| 0 <= j < i && all.take(i as int)[j] == x;
                        assert(all[j] == all[i as int]);
                    }
                }
                assert forall|a: int, b: int| 0 <= a < b < pair_views(r@).len() implies pair_views(r@)[a] != pair_views(r@)[b] by {
                    if b == before.len() {
                        assert(before[a] == pair_views(r@)[a]);
                    } else {
                        assert(before[a] != before[b]);
                    }
                }
                Seq::<(Platform, Seq<char>)>::lemma_to_set_insert_commutes(before, x);
                assert(before + seq![x] =~= before.push(x));
                assert(pair_views(r@).to_set() =~= all.take(i + 1).to_set().difference(f));
            }
        } else {
            assert(pair_views(r@).to_set() =~= all.take(i + 1).to_set().difference(f));
        }
        i = i + 1;
    }
    assert(all.take(pairs@.len() as int) =~= all);
    r
}

impl Config {
    /// What a new configuration changes: the models followed now and not there, and those
    /// there and not followed now.
    pub fn plan_update(&self, new: &Config) -> (r: UpdatePlan)
        requires
            self.wf(),
            new.wf(),
        ensures
            pair_views(r.remove@).to_set() == followed(self.view_map()).difference(followed(new.view_map())),
            pair_views(r.add@).to_set() == followed(new.view_map()).difference(followed(self.view_map())),
            pair_views(r.remove@).no_duplicates(),
            pair_views(r.add@).no_duplicates(),
    {
        let cur = self.all_pairs();
        let next = new.all_pairs();
        UpdatePlan { remove: missing_from(&cur, new), add: missing_from(&next, self) }
    }

    /// Takes over a newly read configuration: stops following what it drops, follows what
    /// it adds and takes its settings. The plan returned says which models were stopped and
    /// started.
    pub fn update_config(&mut self, new: Config) -> (r: UpdatePlan)
        requires
            old(self).wf(),
            new.wf(),
        ensures
            final(self).wf(),
            followed(final(self).view_map()) == followed(new.view_map()),
            final(self).config.user_agent@ == new.config.user_agent@,
            pair_views(r.remove@).to_set() == followed(old(self).view_map()).difference(followed(new.view_map())),
            pair_views(r.add@).to_set() == followed(new.view_map()).difference(followed(old(self).view_map())),
    {
        let plan = self.plan_update(&new);
        let ghost k0 = followed(self.view_map());
        let ghost n0 = followed(new.view_map());
        let ghost rm = pair_views(plan.remove@);
        let ghost ad = pair_views(plan.add@);
        let mut i: usize = 0;
        assert(rm.take(0).to_set() =~= Set::<(Platform, Seq<char>)>::empty());
        assert(k0.difference(Set::empty()) =~= k0);
        while i < plan.remove.len()
            invariant
                self.wf(),
                i <= plan.remove@.len(),
                rm == pair_views(plan.remove@),
                followed(self.view_map()) == k0.difference(rm.take(i as int).to_set()),
            decreases plan.remove@.len() - i,
        {
            let ghost before = self.view_map();
            let _ = self.remove_model(plan.remove[i].0, plan.remove[i].1.as_str());
            proof {
                lemma_followed_drop(before, rm[i as int].0, rm[i as int].1);
                Seq::<(Platform, Seq<char>)>::lemma_to_set_insert_commutes(rm.take(i as int), rm[i as int]);
                assert(rm.take(i as int) + seq![rm[i as int]] =~= rm.take(i + 1));
                assert(followed(self.view_map()) =~= k0.difference(rm.take(i + 1).to_set()));
            }
            i = i + 1;
        }
        assert(rm.take(plan.remove@.len() as int) =~= rm);
        let mut j: usize = 0;
        assert(ad.take(0).to_set() =~= Set::<(Platform, Seq<char>)>::empty());
        assert(k0.difference(rm.to_set()).union(Set::empty()) =~= k0.difference(rm.to_set()));
        while j < plan.add.len()
            invariant
                self.wf(),
                j <= plan.add@.len(),
                ad == pair_views(plan.add@),
                followed(self.view_map()) == k0.difference(rm.to_set()).union(ad.take(j as int).to_set()),
            decreases plan.add@.len() - j,
        {
            let ghost before = self.view_map();
            let m = Model::new(plan.add[j].0, plan.add[j].1.as_str());
            self.insert_model(m);
            proof {
                lemma_followed_add(before, ad[j as int].0, ad[j as int].1);
                Seq::<(Platform, Seq<char>)>::lemma_to_set_insert_commutes(ad.take(j as int), ad[j as int]);
                assert(ad.take(j as int) + seq![ad[j as int]] =~= ad.take(j + 1));
                assert(followed(self.view_map()) =~= k0.difference(rm.to_set()).union(ad.take(j + 1).to_set()));
            }
            j = j + 1;
        }
        assert(ad.take(plan.add@.len() as int) =~= ad);
        assert(k0.difference(k0.difference(n0)).union(n0.difference(k0)) =~= n0);
        self.config = new.config;
        plan
    }
}


/// Every platform present with no model.
pub open spec fn default_view() -> Map<Platform, Set<Seq<char>>> {
    Map::new(|p: Platform| all_platforms().contains(p), |p: Platform| Set::<Seq<char>>::empty())
}

/// A group of models handed back after their check is put back under its platform; an
/// empty group puts nothing back.
pub open spec fn put_back_view(m: Map<Platform, Set<Seq<char>>>, group: Seq<Model>) -> Map<Platform, Set<Seq<char>>> {
    if group.len() == 0 {
        m
    } else {
        m.insert(group[0].platform, names_of(group))
    }
}

/// Putting back, in order, the groups of `es`, starting from `m`.
pub open spec fn put_back_all(m: Map<Platform, Set<Seq<char>>>, es: Seq<(Platform, Vec<Model>)>) -> Map<Platform, Set<Seq<char>>>
    decreases es.len(),
{
    if es.len() == 0 {
        m
    } else {
        put_back_view(put_back_all(m, es.drop_last()), es.last().1@)
    }
}

impl Config {
    /// The configuration written for a new file: no user agent, and every platform present
    /// with no model.
    pub fn default() -> (r: Config)
        ensures
            r.wf(),
            r.view_map() == default_view(),
            r.config.user_agent@ == Seq::<char>::empty(),
    {
        let list = Platform::list();
        let mut es: Vec<(Platform, Vec<Model>)> = Vec::new();
        let mut i: usize = 0;
        while i < list.len()
            invariant
                list@ == all_platforms(),
                i <= list@.len(),
                es@.len() == i,
                forall|j: int| 0 <= j < i ==> (#[trigger] es@[j]).0 == list@[j] && es@[j].1@.len() == 0,
                entries_view(es@) == Map::new(|p: Platform| list@.take(i as int).contains(p), |p: Platform| Set::<Seq<char>>::empty()),
            decreases list@.len() - i,
        {
            let ghost before = es@;
            es.push((list[i], Vec::new()));
            proof {
                assert(es@.drop_last() =~= before);
                assert(names_of(es@.last().1@) =~= Set::<Seq<char>>::empty());
                assert(list@.take(i + 1) =~= list@.take(i as int).push(list@[i as int]));
                let t0 = list@.take(i as int);
                let t1 = list@.take(i + 1);
                assert forall|p: Platform| t1.contains(p) <==> (t0.contains(p) || p == list@[i as int]) by {
                    if t1.contains(p) && p != list@[i as int] {
                        let k = choose|k: int| 0 <= k < t1.len() && t1[k] == p;
                        assert(t0[k] == p);
                    }
                    if t0.contains(p) {
                        let k = choose|k: int| 0 <= k < t0.len() && t0[k] == p;
                        assert(t1[k] == p);
                    }
                    if p == list@[i as int] {
                        assert(t1[i as int] == p);
                    }
                }
                assert(entries_view(es@) =~= Map::new(|p: Platform| list@.take(i + 1).contains(p), |p: Platform| Set::<Seq<char>>::empty()));
            }
            i = i + 1;
        }
        proof {
            assert(list@.take(8) =~= list@);
            assert(entries_view(es@) =~= default_view());
            assert forall|a: int, b: int| 0 <= a < b < es@.len() implies es@[a].0 != es@[b].0 by {
                assert(es@[a].0 == all_platforms()[a]);
                assert(es@[b].0 == all_platforms()[b]);
            }
        }
        Config { config: Settings { user_agent: String::new() }, platform: es }
    }

    /// Takes every platform's models out, leaving no platform present.
    pub fn take_platforms(&mut self) -> (r: Vec<(Platform, Vec<Model>)>)
        ensures
            r@ == old(self).platform@,
            final(self).platform@.len() == 0,
            final(self).config == old(self).config,
    {
        let mut out: Vec<(Platform, Vec<Model>)> = Vec::new();
        std::mem::swap(&mut out, &mut self.platform);
        out
    }

    /// Puts a group of models back under the platform of its first model; an empty group is
    /// dropped.
    pub fn put_back(&mut self, models: Vec<Model>)
        requires
            old(self).wf(),
            models@.len() > 0 ==> models_wf(models@[0].platform, models@),
        ensures
            final(self).wf(),
            final(self).view_map() == put_back_view(old(self).view_map(), models@),
            final(self).config == old(self).config,
    {
        if models.len() == 0 {
            return;
        }
        let p = models[0].platform;
        let ghost es = self.platform@;
        match self.find_platform(p) {
            Some(i) => {
                let _ = self.platform.remove(i);
                self.platform.insert(i, (p, models));
                assert(self.platform@ =~= es.update(i as int, (p, models)));
                proof {
                    lemma_view_update(es, i as int, models);
                    assert forall|j: int| 0 <= j < self.platform@.len() implies models_wf(self.platform@[j].0, #[trigger] self.platform@[j].1@) by {
                        if j != i {
                            assert(self.platform@[j] == es[j]);
                        }
                    }
                }
            },
            None => {
                self.platform.push((p, models));
                proof {
                    assert(self.platform@.drop_last() =~= es);
                    assert forall|j: int| 0 <= j < self.platform@.len() implies models_wf(self.platform@[j].0, #[trigger] self.platform@[j].1@) by {
                        if j < es.len() {
                            assert(self.platform@[j] == es[j]);
                        }
                    }
                }
            },
        }
    }
}

impl Config {
    /// Whether `put_back` can take `models`: all under the first one's platform, each name once.
    pub fn group_valid(models: &Vec<Model>) -> (r: bool)
        ensures
            r == (models@.len() > 0 ==> models_wf(models@[0].platform, models@)),
    {
        if models.len() == 0 {
            return true;
        }
        let p = models[0].platform;
        let mut k: usize = 0;
        while k < models.len()
            invariant
                k <= models@.len(),
                models@.len() > 0,
                p == models@[0].platform,
                forall|a: int| 0 <= a < k ==> (#[trigger] models@[a]).platform == p,
                forall|a: int, b: int| 0 <= a < b < k ==> models@[a].username@ != models@[b].username@,
            decreases models@.len() - k,
        {
            if models[k].platform != p {
                assert(!models_wf(p, models@)) by {
                    assert(models@[k as int].platform != p);
                }
                return false;
            }
            let name = text::chars_of(models[k].username.as_str());
            let mut l: usize = 0;
            while l < k
                invariant
                    l <= k,
                    k < models@.len(),
                    name@ == models@[k as int].username@,
                    forall|a: int| 0 <= a < l ==> models@[a].username@ != models@[k as int].username@,
                decreases k - l,
            {
                let other = text::chars_of(models[l].username.as_str());
                if text::chars_eq(other.as_slice(), name.as_slice()) {
                    assert(!models_wf(p, models@)) by {
                        assert(models@[l as int].username@ == models@[k as int].username@);
                    }
                    return false;
                }
                l = l + 1;
            }
            k = k + 1;
        }
        true
    }
}

/// Taking every platform's models out and putting each group back keeps every followed
/// model; only platforms with no model are no longer present.
pub proof fn lemma_download_keeps_followed(es: Seq<(Platform, Vec<Model>)>)
    requires
        entries_wf(es),
    ensures
        put_back_all(Map::empty(), es) == Map::new(
            |p: Platform| entries_view(es).contains_key(p) && entries_view(es)[p] != Set::<Seq<char>>::empty(),
            |p: Platform| entries_view(es)[p],
        ),
        followed(put_back_all(Map::empty(), es)) == followed(entries_view(es)),
    decreases es.len(),
{
    let m = entries_view(es);
    if es.len() == 0 {
        assert(put_back_all(Map::empty(), es) =~= Map::new(
            |p: Platform| m.contains_key(p) && m[p] != Set::<Seq<char>>::empty(),
            |p: Platform| m[p],
        ));
        assert(followed(Map::<Platform, Set<Seq<char>>>::empty()) =~= followed(m));
    } else {
        let pre = es.drop_last();
        assert(entries_wf(pre)) by {
            assert forall|k: int| 0 <= k < pre.len() implies models_wf(pre[k].0, #[trigger] pre[k].1@) by {
                assert(pre[k] == es[k]);
            }
        }
        lemma_download_keeps_followed(pre);
        let last = es.last();
        let mp = entries_view(pre);
        assert(models_wf(last.0, last.1@));
        lemma_view_absent(pre, last.0);
        let names = names_of(last.1@);
        if last.1@.len() == 0 {
            assert(names =~= Set::<Seq<char>>::empty());
        } else {
            assert(names.contains(last.1@[0].username@)) by {
                assert(last.1@.map_values(|x: Model| x.username@)[0] == last.1@[0].username@);
            }
            assert(names != Set::<Seq<char>>::empty()) by {
                assert(!Set::<Seq<char>>::empty().contains(last.1@[0].username@));
            }
        }
        assert(put_back_all(Map::empty(), es) =~= Map::new(
            |p: Platform| m.contains_key(p) && m[p] != Set::<Seq<char>>::empty(),
            |p: Platform| m[p],
        ));
        assert forall|x: (Platform, Seq<char>)| followed(m).contains(x) implies m[x.0] != Set::<Seq<char>>::empty() by {
            assert(!Set::<Seq<char>>::empty().contains(x.1));
        }
        assert(followed(put_back_all(Map::empty(), es)) =~= followed(m));
    }
}


/// The names listed for a platform in the file, as a set.
pub open spec fn raw_names(names: Seq<String>) -> Set<Seq<char>> {
    names.map_values(|n: String| n@).to_set()
}

/// The platforms and models that the `platform` table of the file gives: entries under an
/// unknown key are left out, and a later entry for a platform replaces an earlier one.
pub open spec fn raw_view(raw: Seq<(String, Vec<String>)>) -> Map<Platform, Set<Seq<char>>>
    decreases raw.len(),
{
    if raw.len() == 0 {
        Map::empty()
    } else {
        let m = raw_view(raw.drop_last());
        match crate::platforms::platform_from_name(raw.last().0@) {
            Some(p) => m.insert(p, raw_names(raw.last().1@)),
            None => m,
        }
    }
}

/// The models named by `names` on `p`, each name once.
fn models_from_names(p: Platform, names: &Vec<String>) -> (r: Vec<Model>)
    ensures
        models_wf(p, r@),
        names_of(r@) == raw_names(names@),
{
    let mut ms: Vec<Model> = Vec::new();
    let mut i: usize = 0;
    let ghost ns = names@.map_values(|n: String| n@);
    assert(ns.take(0).to_set() =~= Set::<Seq<char>>::empty());
    assert(names_of(ms@) =~= Set::<Seq<char>>::empty());
    while i < names.len()
        invariant
            i <= names@.len(),
            ns == names@.map_values(|n: String| n@),
            models_wf(p, ms@),
            names_of(ms@) == ns.take(i as int).to_set(),
        decreases names@.len() - i,
    {
        let name = text::chars_of(names[i].as_str());
        proof {
            Seq::<Seq<char>>::lemma_to_set_insert_commutes(ns.take(i as int), ns[i as int]);
            assert(ns.take(i as int) + seq![ns[i as int]] =~= ns.take(i + 1));
        }
        match find_name(&ms, name.as_slice()) {
            Some(k) => {
                proof {
                    let a = ms@.map_values(|x: Model| x.username@);
                    assert(a[k as int] == name@);
                    assert(names_of(ms@).contains(name@));
                    assert(names_of(ms@) =~= ns.take(i + 1).to_set());
                }
            },
            None => {
                let ghost before = ms@;
                ms.push(Model::new(p, names[i].as_str()));
                proof {
                    lemma_names_push(before, ms@.last());
                    assert(before.push(ms@.last()) =~= ms@);
                    assert forall|a: int, b: int| 0 <= a < b < ms@.len() implies ms@[a].username@ != ms@[b].username@ by {
                        if b == ms@.len() - 1 {
                            let xs = before.map_values(|x: Model| x.username@);
                            if ms@[a].username@ == ms@[b].username@ {
                                assert(xs[a] == name@);
                            }
                        } else {
                            assert(before[a] == ms@[a] && before[b] == ms@[b]);
                        }
                    }
                    assert forall|k: int| 0 <= k < ms@.len() implies (#[trigger] ms@[k]).platform == p by {
                        if k < before.len() {
                            assert(before[k] == ms@[k]);
                        }
                    }
                }
            },
        }
        i = i + 1;
    }
    assert(ns.take(names@.len() as int) =~= ns);
    ms
}

impl Config {
    /// Sets the models of platform `p`, adding the platform if absent.
    pub fn set_entry(&mut self, p: Platform, models: Vec<Model>)
        requires
            old(self).wf(),
            models_wf(p, models@),
        ensures
            final(self).wf(),
            final(self).view_map() == old(self).view_map().insert(p, names_of(models@)),
            final(self).config == old(self).config,
    {
        let ghost es = self.platform@;
        match self.find_platform(p) {
            Some(i) => {
                let _ = self.platform.remove(i);
                self.platform.insert(i, (p, models));
                assert(self.platform@ =~= es.update(i as int, (p, models)));
                proof {
                    lemma_view_update(es, i as int, models);
                    assert forall|j: int| 0 <= j < self.platform@.len() implies models_wf(self.platform@[j].0, #[trigger] self.platform@[j].1@) by {
                        if j != i {
                            assert(self.platform@[j] == es[j]);
                        }
                    }
                }
            },
            None => {
                self.platform.push((p, models));
                proof {
                    assert(self.platform@.drop_last() =~= es);
                    assert forall|j: int| 0 <= j < self.platform@.len() implies models_wf(self.platform@[j].0, #[trigger] self.platform@[j].1@) by {
                        if j < es.len() {
                            assert(self.platform@[j] == es[j]);
                        }
                    }
                }
            },
        }
    }

    /// The configuration that a file with these settings and this `platform` table gives.
    pub fn from_raw(config: Settings, raw: Vec<(String, Vec<String>)>) -> (r: Config)
        ensures
            r.wf(),
            r.view_map() == raw_view(raw@),
            r.config == config,
    {
        let mut c = Config { config, platform: Vec::new() };
        assert(c.view_map() =~= raw_view(raw@.take(0)));
        let mut i: usize = 0;
        while i < raw.len()
            invariant
                i <= raw@.len(),
                c.wf(),
                c.config == config,
                c.view_map() == raw_view(raw@.take(i as int)),
            decreases raw@.len() - i,
        {
            assert(raw@.take(i + 1).drop_last() =~= raw@.take(i as int));
            match Platform::new(raw[i].0.as_str()) {
                Some(p) => {
                    let ms = models_from_names(p, &raw[i].1);
                    c.set_entry(p, ms);
                },
                None => {},
            }
            i = i + 1;
        }
        assert(raw@.take(raw@.len() as int) =~= raw@);
        c
    }
}


impl Config {
    /// The `platform` table written to the file: each platform's name with its models' names.
    pub fn to_raw(&self) -> (r: Vec<(String, Vec<String>)>)
        requires
            self.wf(),
        ensures
            r@.len() == self.platform@.len(),
            forall|i: int| 0 <= i < r@.len() ==> #[trigger] r@[i].0@ == crate::platforms::platform_name(self.platform@[i].0)
                && raw_names(r@[i].1@) == names_of(self.platform@[i].1@),
    {
        let mut r: Vec<(String, Vec<String>)> = Vec::new();
        let mut i: usize = 0;
        while i < self.platform.len()
            invariant
                i <= self.platform@.len(),
                r@.len() == i,
                forall|j: int| 0 <= j < i ==> #[trigger] r@[j].0@ == crate::platforms::platform_name(self.platform@[j].0)
                    && raw_names(r@[j].1@) == names_of(self.platform@[j].1@),
            decreases self.platform@.len() - i,
        {
            let ms = &self.platform[i].1;
            let mut names: Vec<String> = Vec::new();
            let mut k: usize = 0;
            while k < ms.len()
                invariant
                    k <= ms@.len(),
                    names@.len() == k,
                    forall|l: int| 0 <= l < k ==> #[trigger] names@[l]@ == ms@[l].username@,
                decreases ms@.len() - k,
            {
                names.push(ms[k].username.clone());
                k = k + 1;
            }
            assert(names@.map_values(|n: String| n@) =~= ms@.map_values(|m: Model| m.username@));
            r.push((self.platform[i].0.name().to_owned(), names));
            i = i + 1;
        }
        r
    }
}

/// Reading back the table written for a configuration gives the same platforms and models.
pub proof fn lemma_raw_round_trip(es: Seq<(Platform, Vec<Model>)>, raw: Seq<(String, Vec<String>)>)
    requires
        entries_wf(es),
        raw.len() == es.len(),
        forall|i: int| 0 <= i < raw.len() ==> #[trigger] raw[i].0@ == crate::platforms::platform_name(es[i].0)
            && raw_names(raw[i].1@) == names_of(es[i].1@),
    ensures
        raw_view(raw) == entries_view(es),
    decreases es.len(),
{
    if es.len() > 0 {
        let pre = es.drop_last();
        assert(entries_wf(pre)) by {
            assert forall|k: int| 0 <= k < pre.len() implies models_wf(pre[k].0, #[trigger] pre[k].1@) by {
                assert(pre[k] == es[k]);
            }
        }
        let rpre = raw.drop_last();
        assert forall|i: int| 0 <= i < rpre.len() implies #[trigger] rpre[i].0@ == crate::platforms::platform_name(pre[i].0)
            && raw_names(rpre[i].1@) == names_of(pre[i].1@) by {
            assert(rpre[i] == raw[i] && pre[i] == es[i]);
        }
        lemma_raw_round_trip(pre, rpre);
        crate::platforms::lemma_name_round_trip(es.last().0);
        assert(raw.last() == raw[raw.len() - 1]);
    }
}

} // verus!
