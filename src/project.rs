//! A project: its units, the modules they declare, and the module-requires edges.
use vstd::prelude::*;

use crate::ast::{RequireDecl, Section, SurvFile};
use crate::diagnostic::join2;

verus! {

/// A declared module: its id `mod.<name>`, the unit declaring it, and its name.
#[derive(Debug, Clone)]
pub struct ModRef {
    pub id: String,
    pub file: String,
    pub name: String,
}

/// The parsed units of a project (path and declarations) and their modules, in order.
#[derive(Debug)]
pub struct ProjectAST {
    pub files: Vec<(String, SurvFile)>,
    pub mods: Vec<ModRef>,
}

/// A module-requires edge: `from_mod` requires `to_mod`, as written (`raw`) in `file`.
#[derive(Debug, Clone)]
pub struct NormalizedRequire {
    pub from_mod: String,
    pub to_mod: String,
    pub raw: String,
    pub file: String,
}

/// The mathematical value of a [`NormalizedRequire`].
pub struct EdgeView {
    pub from_mod: Seq<char>,
    pub to_mod: Seq<char>,
    pub raw: Seq<char>,
    pub file: Seq<char>,
}

impl View for NormalizedRequire {
    type V = EdgeView;

    open spec fn view(&self) -> EdgeView {
        EdgeView { from_mod: self.from_mod@, to_mod: self.to_mod@, raw: self.raw@, file: self.file@ }
    }
}

pub open spec fn edges_view(v: Seq<NormalizedRequire>) -> Seq<EdgeView> {
    v.map_values(|e: NormalizedRequire| e@)
}

/// Ids of the modules that the first `n` sections declare.
pub open spec fn mod_ids(secs: Seq<Section>, n: int) -> Seq<Seq<char>>
    decreases n,
{
    if n <= 0 {
        Seq::empty()
    } else {
        mod_ids(secs, n - 1) + match secs[n - 1] {
            Section::Mod(m) => seq!["mod."@ + m.name@],
            _ => Seq::empty(),
        }
    }
}

/// `(id, file, name)` of each module that the first `n` units declare.
pub open spec fn declared_mods(files: Seq<(String, SurvFile)>, n: int) -> Seq<(Seq<char>, Seq<char>, Seq<char>)>
    decreases n,
{
    if n <= 0 {
        Seq::empty()
    } else {
        let (path, file) = files[n - 1];
        declared_mods(files, n - 1) + unit_mods(path@, file.sections@, file.sections@.len() as int)
    }
}

pub open spec fn unit_mods(path: Seq<char>, secs: Seq<Section>, n: int) -> Seq<(Seq<char>, Seq<char>, Seq<char>)>
    decreases n,
{
    if n <= 0 {
        Seq::empty()
    } else {
        unit_mods(path, secs, n - 1) + match secs[n - 1] {
            Section::Mod(m) => seq![("mod."@ + m.name@, path, m.name@)],
            _ => Seq::empty(),
        }
    }
}

pub open spec fn mods_view(v: Seq<ModRef>) -> Seq<(Seq<char>, Seq<char>, Seq<char>)> {
    v.map_values(|m: ModRef| (m.id@, m.file@, m.name@))
}

/// The edges of the first `n` requires: every module of the unit to each target.
pub open spec fn require_edges(
    ids: Seq<Seq<char>>,
    reqs: Seq<RequireDecl>,
    path: Seq<char>,
    n: int,
) -> Seq<EdgeView>
    decreases n,
{
    if n <= 0 {
        Seq::empty()
    } else {
        let t = reqs[n - 1].target@;
        require_edges(ids, reqs, path, n - 1) + ids.map_values(
            |id: Seq<char>| EdgeView { from_mod: id, to_mod: t, raw: t, file: path },
        )
    }
}

/// The edges of the first `n` units, before duplicates are removed.
pub open spec fn raw_requires(files: Seq<(String, SurvFile)>, n: int) -> Seq<EdgeView>
    decreases n,
{
    if n <= 0 {
        Seq::empty()
    } else {
        let (path, file) = files[n - 1];
        let ids = mod_ids(file.sections@, file.sections@.len() as int);
        raw_requires(files, n - 1) + require_edges(ids, file.requires@, path@, file.requires@.len() as int)
    }
}

/// An edge among the first `m` with the same ends as `e`.
pub open spec fn seen_before(es: Seq<EdgeView>, e: EdgeView, m: int) -> bool {
    exists|k: int| 0 <= k < m && #[trigger] es[k].from_mod == e.from_mod && es[k].to_mod == e.to_mod
}

/// The first `n` edges with each (from, to) pair kept at its first occurrence only.
pub open spec fn dedup(es: Seq<EdgeView>, n: int) -> Seq<EdgeView>
    decreases n,
{
    if n <= 0 {
        Seq::empty()
    } else {
        dedup(es, n - 1) + if seen_before(es, es[n - 1], n - 1) {
            Seq::empty()
        } else {
            seq![es[n - 1]]
        }
    }
}

/// The module-requires edges of a project: each file-level require attributed to
/// every module of its unit, duplicates removed.
pub open spec fn normalized(files: Seq<(String, SurvFile)>) -> Seq<EdgeView> {
    let raw = raw_requires(files, files.len() as int);
    dedup(raw, raw.len() as int)
}

fn unit_mod_ids(secs: &Vec<Section>) -> (r: Vec<String>)
    ensures
        r@.map_values(|s: String| s@) == mod_ids(secs@, secs@.len() as int),
{
    let mut r: Vec<String> = Vec::new();
    let mut i: usize = 0;
    proof {
        assert(r@.map_values(|s: String| s@) =~= mod_ids(secs@, 0));
    }
    while i < secs.len()
        invariant
            i <= secs@.len(),
            r@.map_values(|s: String| s@) == mod_ids(secs@, i as int),
        decreases secs@.len() - i,
    {
        match &secs[i] {
            Section::Mod(m) => {
                let id = join2("mod.", m.name.as_str());
                r.push(id);
            },
            _ => {},
        }
        proof {
            assert(r@.map_values(|s: String| s@) =~= mod_ids(secs@, i + 1));
        }
        i += 1;
    }
    r
}

impl ProjectAST {
    /// The project of `files`, with the modules they declare, in order.
    pub fn from_files(files: Vec<(String, SurvFile)>) -> (r: ProjectAST)
        ensures
            r.files@ == files@,
            mods_view(r.mods@) == declared_mods(files@, files@.len() as int),
    {
        let mut mods: Vec<ModRef> = Vec::new();
        let mut i: usize = 0;
        proof {
            assert(mods_view(mods@) =~= declared_mods(files@, 0));
        }
        while i < files.len()
            invariant
                i <= files@.len(),
                mods_view(mods@) == declared_mods(files@, i as int),
            decreases files@.len() - i,
        {
            let path = &files[i].0;
            let secs = &files[i].1.sections;
            let ghost base = mods_view(mods@);
            let mut j: usize = 0;
            proof {
                assert(mods_view(mods@) =~= base + unit_mods(path@, secs@, 0));
            }
            while j < secs.len()
                invariant
                    j <= secs@.len(),
                    mods_view(mods@) == base + unit_mods(path@, secs@, j as int),
                decreases secs@.len() - j,
            {
                match &secs[j] {
                    Section::Mod(m) => {
                        let id = join2("mod.", m.name.as_str());
                        let mr = ModRef { id, file: path.clone(), name: m.name.clone() };
                        let ghost before = mods@;
                        mods.push(mr);
                        proof {
                            assert(mods_view(mods@) =~= mods_view(before).push(("mod."@ + m.name@, path@, m.name@)));
                        }
                    },
                    _ => {},
                }
                proof {
                    assert(mods_view(mods@) =~= base + unit_mods(path@, secs@, j + 1));
                }
                j += 1;
            }
            proof {
                assert(mods_view(mods@) =~= declared_mods(files@, i + 1));
            }
            i += 1;
        }
        ProjectAST { files, mods }
    }

    /// The module-requires edges of the project: each require of a unit attributed
    /// to every module it declares, in order, keeping the first of equal (from, to) pairs.
    pub fn collect_normalized_requires(&self) -> (r: Vec<NormalizedRequire>)
        ensures
            edges_view(r@) == normalized(self.files@),
    {
        let files = &self.files;
        let mut raw: Vec<NormalizedRequire> = Vec::new();
        let mut i: usize = 0;
        proof {
            assert(edges_view(raw@) =~= raw_requires(files@, 0));
        }
        while i < files.len()
            invariant
                i <= files@.len(),
                edges_view(raw@) == raw_requires(files@, i as int),
            decreases files@.len() - i,
        {
            let path = &files[i].0;
            let file = &files[i].1;
            let ids = unit_mod_ids(&file.sections);
            let ghost idv = ids@.map_values(|s: String| s@);
            let ghost base = edges_view(raw@);
            let mut q: usize = 0;
            proof {
                assert(edges_view(raw@) =~= base + require_edges(idv, file.requires@, path@, 0));
            }
            while q < file.requires.len()
                invariant
                    q <= file.requires@.len(),
                    idv == ids@.map_values(|s: String| s@),
                    edges_view(raw@) == base + require_edges(idv, file.requires@, path@, q as int),
                decreases file.requires@.len() - q,
            {
                let t = &file.requires[q].target;
                let ghost before = edges_view(raw@);
                let mut k: usize = 0;
                proof {
                    assert(idv.take(0).map_values(
                        |id: Seq<char>| EdgeView { from_mod: id, to_mod: t@, raw: t@, file: path@ },
                    ) =~= Seq::<EdgeView>::empty());
                    assert(edges_view(raw@) =~= before + idv.take(0).map_values(
                        |id: Seq<char>| EdgeView { from_mod: id, to_mod: t@, raw: t@, file: path@ },
                    ));
                }
                while k < ids.len()
                    invariant
                        k <= ids@.len(),
                        idv == ids@.map_values(|s: String| s@),
                        edges_view(raw@) == before + idv.take(k as int).map_values(
                            |id: Seq<char>| EdgeView { from_mod: id, to_mod: t@, raw: t@, file: path@ },
                        ),
                    decreases ids@.len() - k,
                {
                    let ghost r0 = raw@;
                    let nr = NormalizedRequire {
                        from_mod: ids[k].clone(),
                        to_mod: t.clone(),
                        raw: t.clone(),
                        file: path.clone(),
                    };
                    raw.push(nr);
                    proof {
                        assert(idv[k as int] == ids@[k as int]@);
                        assert(edges_view(raw@) =~= edges_view(r0).push(
                            EdgeView { from_mod: idv[k as int], to_mod: t@, raw: t@, file: path@ },
                        ));
                        assert(idv.take(k + 1) =~= idv.take(k as int).push(idv[k as int]));
                        assert(edges_view(raw@) =~= before + idv.take(k + 1).map_values(
                            |id: Seq<char>| EdgeView { from_mod: id, to_mod: t@, raw: t@, file: path@ },
                        ));
                    }
                    k += 1;
                }
                proof {
                    assert(idv.take(k as int) =~= idv);
                    assert(edges_view(raw@) =~= base + require_edges(idv, file.requires@, path@, q + 1));
                }
                q += 1;
            }
            proof {
                assert(edges_view(raw@) =~= raw_requires(files@, i + 1));
            }
            i += 1;
        }
        let ghost rv = edges_view(raw@);
        let mut out: Vec<NormalizedRequire> = Vec::new();
        let mut k: usize = 0;
        proof {
            assert(edges_view(out@) =~= dedup(rv, 0));
        }
        while k < raw.len()
            invariant
                k <= raw@.len(),
                rv == edges_view(raw@),
                edges_view(out@) == dedup(rv, k as int),
            decreases raw@.len() - k,
        {
            let e = &raw[k];
            let mut dup = false;
            let mut p: usize = 0;
            while p < k && !dup
                invariant
                    p <= k,
                    k < raw@.len(),
                    *e == raw@[k as int],
                    rv == edges_view(raw@),
                    dup <==> seen_before(rv, rv[k as int], p as int),
                decreases k - p + if dup { 0int } else { 1int },
            {
                if raw[p].from_mod == e.from_mod && raw[p].to_mod == e.to_mod {
                    dup = true;
                    assert(rv[p as int].from_mod == rv[k as int].from_mod);
                }
                proof {
                    if !dup {
                        assert(!seen_before(rv, rv[k as int], p + 1));
                    }
                }
                p += 1;
            }
            proof {
                if dup {
                    let q = choose|q: int| 0 <= q < p && #[trigger] rv[q].from_mod == rv[k as int].from_mod && rv[q].to_mod == rv[k as int].to_mod;
                    assert(seen_before(rv, rv[k as int], k as int));
                }
            }
            if !dup {
                out.push(
                    NormalizedRequire {
                        from_mod: e.from_mod.clone(),
                        to_mod: e.to_mod.clone(),
                        raw: e.raw.clone(),
                        file: e.file.clone(),
                    },
                );
            }
            proof {
                assert(edges_view(out@) =~= dedup(rv, k + 1));
            }
            k += 1;
        }
        out
    }
}

} // verus!
