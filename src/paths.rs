//! Where each object's payload lies on the host, as a list of path components.

use vstd::prelude::*;
use vstd::string::*;

verus! {

/// A host path, as the components to join in order.
#[derive(Clone, Debug)]
pub struct ResolvedPath {
    pub parts: Vec<String>,
}

impl View for ResolvedPath {
    type V = Seq<Seq<char>>;

    open spec fn view(&self) -> Seq<Seq<char>> {
        self.parts@.map_values(|s: String| s@)
    }
}

/// The file name of an architecture's boot banner: `<base_arch>.txt`.
pub open spec fn banner_file(base_arch: Seq<char>) -> Seq<char> {
    base_arch + ".txt"@
}

/// Where a service's builds lie: `base/<source>/target`.
pub open spec fn target_dir_spec(base: Seq<char>, source: Seq<char>) -> Seq<Seq<char>> {
    seq![base, source, "target"@]
}

/// The service binary's path below its `target` directory: the architecture
/// segment only where that directory exists, the quality segment only where
/// a quality is set, then the service's name.
pub open spec fn service_path_spec(
    target_dir: Seq<Seq<char>>,
    arch: Option<Seq<char>>,
    arch_dir_exists: bool,
    quality: Option<Seq<char>>,
    name: Seq<char>,
) -> Seq<Seq<char>> {
    let with_arch = match arch {
        Some(a) => if arch_dir_exists {
            target_dir.push(a)
        } else {
            target_dir
        },
        None => target_dir,
    };
    let with_quality = match quality {
        Some(q) => with_arch.push(q),
        None => with_arch,
    };
    with_quality.push(name)
}

pub open spec fn opt_text(o: Option<String>) -> Option<Seq<char>> {
    match o {
        Some(s) => Some(s@),
        None => None,
    }
}

fn path_of(parts: Vec<String>) -> (r: ResolvedPath)
    ensures
        r.parts == parts,
{
    ResolvedPath { parts }
}

/// `base/<banner_dir>/<base_arch>.txt`.
pub fn banner_path(base: &String, banner_dir: &String, base_arch: &String) -> (r: ResolvedPath)
    ensures
        r@ == seq![base@, banner_dir@, banner_file(base_arch@)],
{
    let file = base_arch.clone().concat(".txt");
    let r = path_of(vec![base.clone(), banner_dir.clone(), file]);
    assert(r@ =~= seq![base@, banner_dir@, banner_file(base_arch@)]);
    r
}

/// `base/<file>`: a path named by the configuration, relative to its directory.
pub fn file_path(base: &String, file: &String) -> (r: ResolvedPath)
    ensures
        r@ == seq![base@, file@],
{
    let r = path_of(vec![base.clone(), file.clone()]);
    assert(r@ =~= seq![base@, file@]);
    r
}

/// `base/<source>/target`, the directory that holds a service's builds.
pub fn service_target_dir(base: &String, source: &String) -> (r: ResolvedPath)
    ensures
        r@ == target_dir_spec(base@, source@),
{
    let r = path_of(vec![base.clone(), source.clone(), String::from_str("target")]);
    assert(r@ =~= target_dir_spec(base@, source@));
    r
}

/// The directory whose existence decides whether a service's path holds the
/// architecture segment: `<target_dir>/<arch>`.
pub fn arch_probe(target_dir: &ResolvedPath, arch: &String) -> (r: ResolvedPath)
    ensures
        r@ == target_dir@.push(arch@),
{
    let mut parts = target_dir.parts.clone();
    parts.push(arch.clone());
    let r = path_of(parts);
    assert(r@ =~= target_dir@.push(arch@));
    r
}

/// `<target_dir>[/<arch>][/<quality>]/<name>`: the architecture segment is
/// there only where `arch_dir_exists` says the directory of that name exists
/// (else the service was built for the host itself), the quality segment only
/// where a quality is set.
pub fn service_path(
    target_dir: &ResolvedPath,
    arch: &Option<String>,
    arch_dir_exists: bool,
    quality: &Option<String>,
    name: &String,
) -> (r: ResolvedPath)
    ensures
        r@ == service_path_spec(
            target_dir@,
            opt_text(*arch),
            arch_dir_exists,
            opt_text(*quality),
            name@,
        ),
{
    let mut parts = target_dir.parts.clone();
    assert(parts@.map_values(|s: String| s@) =~= target_dir@);
    match arch {
        Some(a) => {
            if arch_dir_exists {
                parts.push(a.clone());
            }
        },
        None => {},
    }
    match quality {
        Some(q) => parts.push(q.clone()),
        None => {},
    }
    parts.push(name.clone());
    let r = path_of(parts);
    assert(r@ =~= service_path_spec(
        target_dir@,
        opt_text(*arch),
        arch_dir_exists,
        opt_text(*quality),
        name@,
    ));
    r
}

/// `base/<source>/<label>`: a guest image lies flat in its source directory.
pub fn guest_path(base: &String, source: &String, label: &String) -> (r: ResolvedPath)
    ensures
        r@ == seq![base@, source@, label@],
{
    let r = path_of(vec![base.clone(), source.clone(), label.clone()]);
    assert(r@ =~= seq![base@, source@, label@]);
    r
}

/// A service's path holds the architecture segment exactly when the
/// directory of that name exists below `target/`: without it the path is the
/// one resolved with no architecture at all, and with it that same path with
/// the segment right after `target/`.
pub proof fn lemma_service_arch_segment(
    target_dir: Seq<Seq<char>>,
    arch: Seq<char>,
    quality: Option<Seq<char>>,
    name: Seq<char>,
)
    ensures
        service_path_spec(target_dir, Some(arch), false, quality, name) == service_path_spec(
            target_dir,
            None,
            false,
            quality,
            name,
        ),
        service_path_spec(target_dir, Some(arch), true, quality, name) == target_dir.push(arch)
            + service_path_spec(target_dir, None, false, quality, name).skip(
            target_dir.len() as int,
        ),
        service_path_spec(target_dir, Some(arch), true, quality, name)[target_dir.len() as int]
            == arch,
{
    let without = service_path_spec(target_dir, None, false, quality, name);
    let with = service_path_spec(target_dir, Some(arch), true, quality, name);
    assert(with =~= target_dir.push(arch) + without.skip(target_dir.len() as int));
}

} // verus!
