use vstd::prelude::*;

use crate::paths::path_join;

verus! {

/// The observable state of a build context.
#[verifier::ext_equal]
pub struct CtxView {
    pub root: Seq<Seq<char>>,
    pub environ: Map<Seq<char>, Seq<char>>,
    pub remove_dirs: Seq<Seq<Seq<char>>>,
    pub empty_dirs: Seq<Seq<Seq<char>>>,
    pub ensure_dirs: Seq<Seq<Seq<char>>>,
}

/// The environment mapping described by a list of pairs; a later pair
/// for the same key wins.
pub open spec fn env_map_of(s: Seq<(Seq<char>, Seq<char>)>) -> Map<Seq<char>, Seq<char>>
    decreases s.len(),
{
    if s.len() == 0 {
        Map::empty()
    } else {
        env_map_of(s.drop_last()).insert(s.last().0, s.last().1)
    }
}

proof fn lemma_env_map_key(s: Seq<(Seq<char>, Seq<char>)>, k: Seq<char>)
    ensures
        env_map_of(s).contains_key(k) <==> exists|i: int| 0 <= i < s.len() && s[i].0 == k,
    decreases s.len(),
{
    if s.len() > 0 {
        lemma_env_map_key(s.drop_last(), k);
        if env_map_of(s).contains_key(k) {
            if s.last().0 == k {
                assert(s[s.len() - 1].0 == k);
            } else {
                let i = choose|i: int| 0 <= i < s.drop_last().len() && s.drop_last()[i].0 == k;
                assert(s[i].0 == k);
            }
        }
        if exists|i: int| 0 <= i < s.len() && s[i].0 == k {
            let i = choose|i: int| 0 <= i < s.len() && s[i].0 == k;
            if i < s.len() - 1 {
                assert(s.drop_last()[i].0 == k);
            }
        }
    }
}

proof fn lemma_env_map_value(s: Seq<(Seq<char>, Seq<char>)>, i: int)
    requires
        0 <= i < s.len(),
        forall|j: int| i < j < s.len() ==> s[j].0 != s[i].0,
    ensures
        env_map_of(s).contains_key(s[i].0),
        env_map_of(s)[s[i].0] == s[i].1,
    decreases s.len(),
{
    if i == s.len() - 1 {
    } else {
        assert(s.drop_last()[i] == s[i]);
        lemma_env_map_value(s.drop_last(), i);
        assert(s.last().0 != s[i].0);
    }
}

proof fn lemma_env_map_push(s: Seq<(Seq<char>, Seq<char>)>, e: (Seq<char>, Seq<char>))
    ensures
        env_map_of(s.push(e)) == env_map_of(s).insert(e.0, e.1),
{
    assert(s.push(e).drop_last() =~= s);
    assert(s.push(e).last() == e);
}

/// Mutable per-build state: the root the build provisions, the
/// environment mapping, and the three append-only provisioning records
/// that steps accumulate.
pub struct BuildContext {
    root: Vec<String>,
    environ: Vec<(String, String)>,
    remove_dirs: Vec<Vec<String>>,
    empty_dirs: Vec<Vec<String>>,
    ensure_dirs: Vec<Vec<String>>,
}

impl View for BuildContext {
    type V = CtxView;

    closed spec fn view(&self) -> CtxView {
        CtxView {
            root: self.root.deep_view(),
            environ: env_map_of(self.environ.deep_view()),
            remove_dirs: self.remove_dirs.deep_view(),
            empty_dirs: self.empty_dirs.deep_view(),
            ensure_dirs: self.ensure_dirs.deep_view(),
        }
    }
}

impl BuildContext {
    /// A fresh context for one build, scoped to the given root.
    pub fn new(root: Vec<String>) -> (r: BuildContext)
        ensures
            r@.root == root.deep_view(),
            r@.environ =~= Map::<Seq<char>, Seq<char>>::empty(),
            r@.remove_dirs =~= Seq::<Seq<Seq<char>>>::empty(),
            r@.empty_dirs =~= Seq::<Seq<Seq<char>>>::empty(),
            r@.ensure_dirs =~= Seq::<Seq<Seq<char>>>::empty(),
    {
        let r = BuildContext {
            root,
            environ: Vec::new(),
            remove_dirs: Vec::new(),
            empty_dirs: Vec::new(),
            ensure_dirs: Vec::new(),
        };
        proof {
            assert(r.environ.deep_view() =~= Seq::<(Seq<char>, Seq<char>)>::empty());
            assert(r.remove_dirs.deep_view() =~= Seq::<Seq<Seq<char>>>::empty());
            assert(r.empty_dirs.deep_view() =~= Seq::<Seq<Seq<char>>>::empty());
            assert(r.ensure_dirs.deep_view() =~= Seq::<Seq<Seq<char>>>::empty());
        }
        r
    }

    /// The step path `p` resolved against the container root.
    pub fn rooted(&self, p: &Vec<String>) -> (r: Vec<String>)
        ensures
            r.deep_view() == self@.root + p.deep_view(),
    {
        let r = path_join(&self.root, p);
        proof {
            assert(r.deep_view() =~= self@.root + p.deep_view());
        }
        r
    }

    /// Insert or overwrite one environment binding.
    pub fn set_env(&mut self, k: String, v: String)
        ensures
            final(self)@ == (CtxView {
                environ: old(self)@.environ.insert(k@, v@),
                ..old(self)@
            }),
    {
        let ghost prev = self.environ.deep_view();
        self.environ.push((k, v));
        proof {
            assert(self.environ.deep_view() =~~= prev.push((k@, v@)));
            lemma_env_map_push(prev, (k@, v@));
            assert(self@ =~= (CtxView { environ: old(self)@.environ.insert(k@, v@), ..old(self)@ }));
        }
    }

    /// Look one binding up.
    #[verifier::loop_isolation(false)]
    pub fn env_get(&self, k: &String) -> (r: Option<&String>)
        ensures
            r.is_some() <==> self@.environ.contains_key(k@),
            r matches Some(v) ==> v@ == self@.environ[k@],
    {
        proof {
            lemma_env_map_key(self.environ.deep_view(), k@);
        }
        let mut i: usize = self.environ.len();
        while i > 0
            invariant
                i <= self.environ.len(),
                forall|j: int|
                    i <= j < self.environ.len() ==> self.environ.deep_view()[j].0 != k@,
            decreases i,
        {
            let j = i - 1;
            if self.environ[j].0 == *k {
                proof {
                    assert(self.environ.deep_view()[j as int].0 == k@);
                    lemma_env_map_value(self.environ.deep_view(), j as int);
                }
                return Some(&self.environ[j].1);
            }
            proof {
                assert(self.environ.deep_view()[j as int].0 != k@);
            }
            i = j;
        }
        None
    }

    /// Record a removed directory.
    pub fn add_remove_dir(&mut self, p: Vec<String>)
        ensures
            final(self)@ == (CtxView {
                remove_dirs: old(self)@.remove_dirs.push(p.deep_view()),
                ..old(self)@
            }),
    {
        let ghost prev = self.remove_dirs.deep_view();
        let ghost pdv = p.deep_view();
        self.remove_dirs.push(p);
        proof {
            assert(self.remove_dirs.deep_view() =~~= prev.push(pdv));
            assert(self@ =~= (CtxView { remove_dirs: prev.push(pdv), ..old(self)@ }));
        }
    }

    /// Record an emptied directory.
    pub fn add_empty_dir(&mut self, p: Vec<String>)
        ensures
            final(self)@ == (CtxView {
                empty_dirs: old(self)@.empty_dirs.push(p.deep_view()),
                ..old(self)@
            }),
    {
        let ghost prev = self.empty_dirs.deep_view();
        let ghost pdv = p.deep_view();
        self.empty_dirs.push(p);
        proof {
            assert(self.empty_dirs.deep_view() =~~= prev.push(pdv));
            assert(self@ =~= (CtxView { empty_dirs: prev.push(pdv), ..old(self)@ }));
        }
    }

    /// Record an ensured directory.
    pub fn add_ensure_dir(&mut self, p: Vec<String>)
        ensures
            final(self)@ == (CtxView {
                ensure_dirs: old(self)@.ensure_dirs.push(p.deep_view()),
                ..old(self)@
            }),
    {
        let ghost prev = self.ensure_dirs.deep_view();
        let ghost pdv = p.deep_view();
        self.ensure_dirs.push(p);
        proof {
            assert(self.ensure_dirs.deep_view() =~~= prev.push(pdv));
            assert(self@ =~= (CtxView { ensure_dirs: prev.push(pdv), ..old(self)@ }));
        }
    }

    /// The recorded removals, in order.
    pub fn remove_dirs(&self) -> (r: &Vec<Vec<String>>)
        ensures
            r.deep_view() == self@.remove_dirs,
    {
        &self.remove_dirs
    }

    /// The recorded emptied directories, in order.
    pub fn empty_dirs(&self) -> (r: &Vec<Vec<String>>)
        ensures
            r.deep_view() == self@.empty_dirs,
    {
        &self.empty_dirs
    }

    /// The recorded ensured directories, in order.
    pub fn ensure_dirs(&self) -> (r: &Vec<Vec<String>>)
        ensures
            r.deep_view() == self@.ensure_dirs,
    {
        &self.ensure_dirs
    }
}

} // verus!
