//! The launcher of the bundled pnpm: where it finds node and pnpm.
use crate::node;
use crate::node::node_rel_path;
use crate::paths;
use crate::paths::{Arch, Os, join_path, parent};
use crate::text;
use crate::text::{cat, cat3, in_list, join};
use vstd::prelude::*;

verus! {

/// The first of the paths that is a file.
pub open spec fn first_file(files: Seq<Seq<char>>, paths: Seq<Seq<char>>) -> Option<Seq<char>>
    decreases paths.len(),
{
    if paths.len() == 0 {
        None
    } else if files.contains(paths[0]) {
        Some(paths[0])
    } else {
        first_file(files, paths.subrange(1, paths.len() as int))
    }
}

/// Where the entry file of pnpm may lie under a root, in the order in which it is looked for.
pub open spec fn pnpm_places(os: Os, root: Seq<char>) -> Seq<Seq<char>> {
    seq![
        paths::joined_path(os, root, "pnpm/bin/pnpm.mjs"@),
        paths::joined_path(os, root, "pnpm/bin/pnpm.cjs"@),
    ]
}

fn pnpm_entry(os: Os, files: &[String], root: &str) -> (r: Option<String>)
    ensures
        text::opt(r) == first_file(text::strs(files@), pnpm_places(os, root@)),
{
    reveal_with_fuel(first_file, 3);
    let first = join_path(os, root, "pnpm/bin/pnpm.mjs");
    let second = join_path(os, root, "pnpm/bin/pnpm.cjs");
    let ghost all = pnpm_places(os, root@);
    assert(all.subrange(1, 2) =~= seq![second@]);
    assert(all.subrange(1, 2).subrange(1, 1) =~= Seq::<Seq<char>>::empty());
    if in_list(files, first.as_str()) {
        Some(first)
    } else if in_list(files, second.as_str()) {
        Some(second)
    } else {
        None
    }
}

/// What is launched: the root that holds everything, node, and the entry file of pnpm.
#[verifier::ext_equal]
pub struct BundleView {
    pub root: Seq<char>,
    pub node: Seq<char>,
    pub entry: Seq<char>,
}

/// What a root holds, where it holds both node and pnpm.
pub open spec fn bundle_in(os: Os, arch: Arch, files: Seq<Seq<char>>, root: Seq<char>) -> Option<
    BundleView,
> {
    let node = paths::joined_path(os, root, node::node_place(os, arch));
    match first_file(files, pnpm_places(os, root)) {
        Some(entry) if files.contains(node) => Some(BundleView { root, node, entry }),
        _ => None,
    }
}

/// The first of the roots that holds both node and pnpm.
pub open spec fn first_bundle(
    os: Os,
    arch: Arch,
    files: Seq<Seq<char>>,
    roots: Seq<Seq<char>>,
) -> Option<BundleView>
    decreases roots.len(),
{
    if roots.len() == 0 {
        None
    } else {
        match bundle_in(os, arch, files, roots[0]) {
            Some(b) => Some(b),
            None => first_bundle(os, arch, files, roots.subrange(1, roots.len() as int)),
        }
    }
}

/// The roots that are searched, in order: the one that was asked for, the directory of the
/// launcher, and the one above it.
pub open spec fn roots_of(os: Os, wanted: Option<Seq<char>>, exe_dir: Seq<char>) -> Seq<Seq<char>> {
    (match wanted {
        Some(root) => seq![root],
        None => Seq::empty(),
    }) + seq![exe_dir] + (match paths::parent_of(os, exe_dir) {
        Some(up) => seq![up],
        None => Seq::empty(),
    })
}

/// Where the launcher itself lies.
pub open spec fn launcher_dir(os: Os, exe: Result<Seq<char>, Seq<char>>) -> Result<
    Seq<char>,
    Seq<char>,
> {
    match exe {
        Err(e) => Err("cannot locate self: "@ + e),
        Ok(path) => match paths::parent_of(os, path) {
            Some(dir) => Ok(dir),
            None => Err("self has no parent directory: "@ + path),
        },
    }
}

/// What is launched, or why nothing can be.
pub open spec fn resolved(
    os: Os,
    arch: Arch,
    files: Seq<Seq<char>>,
    wanted: Option<Seq<char>>,
    exe: Result<Seq<char>, Seq<char>>,
) -> Result<BundleView, Seq<char>> {
    match launcher_dir(os, exe) {
        Err(e) => Err(e),
        Ok(dir) => match first_bundle(os, arch, files, roots_of(os, wanted, dir)) {
            Some(b) => Ok(b),
            None => Err(
                "bundled node + pnpm not found near "@ + dir + " (looked in: "@ + text::joined(
                    roots_of(os, wanted, dir),
                    ", "@,
                ) + ")"@,
            ),
        },
    }
}

fn resolve_exe_dir(os: Os, exe: Result<&str, &str>) -> (r: Result<String, String>)
    ensures
        match r {
            Ok(s) => launcher_dir(os, as_chars(exe)) == Ok::<Seq<char>, Seq<char>>(s@),
            Err(e) => launcher_dir(os, as_chars(exe)) == Err::<Seq<char>, Seq<char>>(e@),
        },
{
    match exe {
        Err(e) => Err(cat("cannot locate self: ", e)),
        Ok(path) => match parent(os, path) {
            Some(dir) => Ok(dir),
            None => Err(cat("self has no parent directory: ", path)),
        },
    }
}

/// A text or a message as characters.
pub open spec fn as_chars(r: Result<&str, &str>) -> Result<Seq<char>, Seq<char>> {
    match r {
        Ok(s) => Ok(s@),
        Err(e) => Err(e@),
    }
}

fn search_roots(os: Os, wanted: Option<&str>, exe_dir: &str) -> (r: Vec<String>)
    ensures
        text::strs(r@) == roots_of(
            os,
            text::opt_str(wanted),
            exe_dir@,
        ),
{
    let mut out: Vec<String> = Vec::new();
    if let Some(root) = wanted {
        out.push(root.to_owned());
    }
    out.push(exe_dir.to_owned());
    if let Some(up) = parent(os, exe_dir) {
        out.push(up);
    }
    assert(text::strs(out@) =~= roots_of(
        os,
        text::opt_str(wanted),
        exe_dir@,
    ));
    out
}

/// The files that decide what is launched. Which of them are files has to be found out before
/// [`resolve`] is asked.
pub fn resolve_questions(os: Os, arch: Arch, root_override: Option<&str>, exe: Result<&str, &str>)
    -> (r: Vec<String>)
    ensures
        match launcher_dir(os, as_chars(exe)) {
            Err(_) => r@.len() == 0,
            Ok(dir) => {
                let roots = roots_of(
                    os,
                    text::opt_str(root_override),
                    dir,
                );
                &&& r@.len() == 3 * roots.len()
                &&& forall|i: int|
                    0 <= i < roots.len() ==> {
                        &&& text::strs(r@)[3 * i] == paths::joined_path(
                            os,
                            #[trigger] roots[i],
                            node::node_place(os, arch),
                        )
                        &&& text::strs(r@)[3 * i + 1] == pnpm_places(os, roots[i])[0]
                        &&& text::strs(r@)[3 * i + 2] == pnpm_places(os, roots[i])[1]
                    }
            },
        },
{
    let mut out: Vec<String> = Vec::new();
    let dir = match resolve_exe_dir(os, exe) {
        Ok(d) => d,
        Err(_) => {
            return out;
        },
    };
    let roots = search_roots(os, root_override, dir.as_str());
    for i in 0..roots.len()
        invariant
            out@.len() == 3 * i,
            forall|k: int|
                0 <= k < i ==> {
                    &&& text::strs(out@)[3 * k] == paths::joined_path(
                        os,
                        #[trigger] text::strs(roots@)[k],
                        node::node_place(os, arch),
                    )
                    &&& text::strs(out@)[3 * k + 1] == pnpm_places(os, text::strs(roots@)[k])[0]
                    &&& text::strs(out@)[3 * k + 2] == pnpm_places(os, text::strs(roots@)[k])[1]
                },
    {
        let ghost before = out@;
        let node = node_rel_path(os, arch);
        out.push(join_path(os, roots[i].as_str(), node.as_str()));
        out.push(join_path(os, roots[i].as_str(), "pnpm/bin/pnpm.mjs"));
        out.push(join_path(os, roots[i].as_str(), "pnpm/bin/pnpm.cjs"));
        assert(text::strs(roots@)[i as int] == roots@[i as int]@);
        assert forall|k: int| 0 <= k < i + 1 implies {
            &&& text::strs(out@)[3 * k] == paths::joined_path(
                os,
                #[trigger] text::strs(roots@)[k],
                node::node_place(os, arch),
            )
            &&& text::strs(out@)[3 * k + 1] == pnpm_places(os, text::strs(roots@)[k])[0]
            &&& text::strs(out@)[3 * k + 2] == pnpm_places(os, text::strs(roots@)[k])[1]
        } by {
            if k < i {
                assert(text::strs(out@)[3 * k] == text::strs(before)[3 * k]);
                assert(text::strs(out@)[3 * k + 1] == text::strs(before)[3 * k + 1]);
                assert(text::strs(out@)[3 * k + 2] == text::strs(before)[3 * k + 2]);
            }
        }
    }
    out
}

/// The resource root that holds both node and pnpm, with the two. `files` are those of the
/// paths in question that are files; `exe` is where the launcher lies, or why that is not known.
pub fn resolve(
    os: Os,
    arch: Arch,
    files: &[String],
    root_override: Option<&str>,
    exe: Result<&str, &str>,
) -> (r: Result<(String, String, String), String>)
    ensures
        ({
            let found = resolved(
                os,
                arch,
                text::strs(files@),
                text::opt_str(root_override),
                as_chars(exe),
            );
            match r {
                Ok((root, node, entry)) => found == Ok::<BundleView, Seq<char>>(
                    BundleView { root: root@, node: node@, entry: entry@ },
                ),
                Err(e) => found == Err::<BundleView, Seq<char>>(e@),
            }
        }),
{
    let dir = match resolve_exe_dir(os, exe) {
        Ok(d) => d,
        Err(e) => {
            return Err(e);
        },
    };
    let roots = search_roots(os, root_override, dir.as_str());
    let ghost all = text::strs(roots@);
    assert(all.subrange(0, all.len() as int) =~= all);
    for i in 0..roots.len()
        invariant
            all == text::strs(roots@),
            launcher_dir(os, as_chars(exe)) == Ok::<Seq<char>, Seq<char>>(dir@),
            all == roots_of(
                os,
                text::opt_str(root_override),
                dir@,
            ),
            first_bundle(os, arch, text::strs(files@), all) == first_bundle(
                os,
                arch,
                text::strs(files@),
                all.subrange(i as int, all.len() as int),
            ),
    {
        let ghost rest = all.subrange(i as int, all.len() as int);
        assert(rest[0] == roots@[i as int]@);
        assert(rest.subrange(1, rest.len() as int) =~= all.subrange(i + 1, all.len() as int));
        let node = join_path(os, roots[i].as_str(), node_rel_path(os, arch).as_str());
        if let Some(entry) = pnpm_entry(os, files, roots[i].as_str()) {
            if in_list(files, node.as_str()) {
                return Ok((roots[i].clone(), node, entry));
            }
        }
    }
    let listed = join(roots.as_slice(), ", ");
    Err(
        cat3(
            cat3("bundled node + pnpm not found near ", dir.as_str(), " (looked in: ").as_str(),
            listed.as_str(),
            ")",
        ),
    )
}

/// The launcher runs the first bundle that is whole: that of the directory which was asked for, else
/// the one beside the launcher, else the one above it. It is whole where both its node and its pnpm
/// are there; of the two ways in which pnpm comes the module goes first.
pub proof fn first_whole_bundle_is_run(
    os: Os,
    arch: Arch,
    files: &[String],
    wanted: Option<&str>,
    exe: &str,
    dir: Seq<char>,
    r: Result<(String, String, String), String>,
)
    requires
        call_ensures(resolve, (os, arch, files, wanted, Ok(exe)), r),
        paths::parent_of(os, exe@) == Some(dir),
    ensures
        r matches Ok((root, node, entry)) ==> {
            let there = text::strs(files@);
            &&& node@ == paths::joined_path(os, root@, node::node_place(os, arch))
            &&& there.contains(node@)
            &&& there.contains(entry@)
            &&& if there.contains(paths::joined_path(os, root@, "pnpm/bin/pnpm.mjs"@)) {
                entry@ == paths::joined_path(os, root@, "pnpm/bin/pnpm.mjs"@)
            } else {
                entry@ == paths::joined_path(os, root@, "pnpm/bin/pnpm.cjs"@)
            }
            &&& root@ == dir || (wanted is Some && root@ == wanted->0@) || paths::parent_of(os, dir)
                == Some(root@)
        },
        wanted is Some && bundle_whole(os, arch, text::strs(files@), wanted->0@) ==> r is Ok
            && r->Ok_0.0@ == wanted->0@,
        (wanted is None || !bundle_whole(os, arch, text::strs(files@), wanted->0@)) && bundle_whole(
            os,
            arch,
            text::strs(files@),
            dir,
        ) ==> r is Ok && r->Ok_0.0@ == dir,
        (wanted is None || !bundle_whole(os, arch, text::strs(files@), wanted->0@))
            && !bundle_whole(os, arch, text::strs(files@), dir) ==> (paths::parent_of(
            os,
            dir,
        ) matches Some(up) ==> if bundle_whole(os, arch, text::strs(files@), up) {
            r is Ok && r->Ok_0.0@ == up
        } else {
            r is Err
        }),
{
    let there = text::strs(files@);
    let w = text::opt_str(wanted);
    let roots = roots_of(os, w, dir);
    let up = paths::parent_of(os, dir);
    reveal_with_fuel(first_bundle, 5);
    lemma_whole(os, arch, there, dir);
    if let Some(root) = w {
        lemma_whole(os, arch, there, root);
    }
    if let Some(u) = up {
        lemma_whole(os, arch, there, u);
    }
    let r1 = roots.subrange(1, roots.len() as int);
    if wanted is Some {
        assert(roots[0] == w->0);
        assert(r1[0] == dir);
        let r2 = r1.subrange(1, r1.len() as int);
        if up is Some {
            assert(r2[0] == up->0);
            assert(r2.subrange(1, r2.len() as int).len() == 0);
        } else {
            assert(r2.len() == 0);
        }
    } else {
        assert(roots[0] == dir);
        if up is Some {
            assert(r1[0] == up->0);
            assert(r1.subrange(1, r1.len() as int).len() == 0);
        } else {
            assert(r1.len() == 0);
        }
    }
}

/// Whether both node and pnpm are there below a directory.
pub open spec fn bundle_whole(os: Os, arch: Arch, files: Seq<Seq<char>>, root: Seq<char>) -> bool {
    &&& files.contains(paths::joined_path(os, root, node::node_place(os, arch)))
    &&& files.contains(paths::joined_path(os, root, "pnpm/bin/pnpm.mjs"@)) || files.contains(
        paths::joined_path(os, root, "pnpm/bin/pnpm.cjs"@),
    )
}

proof fn lemma_whole(os: Os, arch: Arch, files: Seq<Seq<char>>, root: Seq<char>)
    ensures
        bundle_in(os, arch, files, root) is Some <==> bundle_whole(os, arch, files, root),
        bundle_in(os, arch, files, root) matches Some(b) ==> {
            &&& b.root == root
            &&& b.node == paths::joined_path(os, root, node::node_place(os, arch))
            &&& files.contains(b.node)
            &&& files.contains(b.entry)
            &&& b.entry == (if files.contains(paths::joined_path(os, root, "pnpm/bin/pnpm.mjs"@)) {
                paths::joined_path(os, root, "pnpm/bin/pnpm.mjs"@)
            } else {
                paths::joined_path(os, root, "pnpm/bin/pnpm.cjs"@)
            })
        },
{
    let places = pnpm_places(os, root);
    let rest = places.subrange(1, 2);
    assert(rest[0] == places[1]);
    assert(rest.subrange(1, 1).len() == 0);
    reveal_with_fuel(first_file, 4);
}

} // verus!
