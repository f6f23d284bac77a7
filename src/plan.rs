//! Which objects an image holds, in which order, and where each one comes
//! from: boot banners first, then system services, then guest images.

use vstd::prelude::*;
use vstd::string::*;
use crate::arch::{base_arch_of, get_base_arch};
use crate::manifest::{ManifestObject, ManifestObjectData, ManifestObjectType, ObjectModel, texts_view};
use crate::paths::{
    ResolvedPath,
    banner_file,
    banner_path,
    file_path,
    guest_path,
    opt_text,
    service_target_dir,
    target_dir_spec,
};
use crate::settings::Settings;

verus! {

/// A system service the configuration defines.
#[derive(Clone, Debug)]
pub struct ServiceEntry {
    pub name: String,
    pub path: String,
    pub description: String,
    pub properties: Option<Vec<String>>,
}

/// A guest image the configuration defines.
#[derive(Clone, Debug)]
pub struct GuestEntry {
    pub label: String,
    pub path: String,
    pub url: Option<String>,
    pub description: String,
}

/// The guests a target architecture includes.
#[derive(Clone, Debug)]
pub struct TargetEntry {
    pub arch: String,
    pub guests: Option<Vec<String>>,
}

/// The configuration, as resolved values; names are unique within each table.
#[derive(Clone, Debug)]
pub struct Config {
    pub banner_dir: Option<String>,
    pub welcome: Option<String>,
    pub services_include: Option<Vec<String>>,
    pub services: Option<Vec<ServiceEntry>>,
    pub guests: Option<Vec<GuestEntry>>,
    pub targets: Option<Vec<TargetEntry>>,
}

/// Where an object's payload is read from.
#[derive(Clone, Debug)]
pub enum Source {
    /// A file at this path.
    File(ResolvedPath),
    /// A service binary below this `target` directory (see `paths::service_path`).
    Service(ResolvedPath),
    /// A guest image at `path`, in directory `dir`, fetched from `url` if absent.
    Guest { dir: ResolvedPath, path: ResolvedPath, url: Option<String> },
}

/// One object to put in the image, its payload not yet read.
#[derive(Clone, Debug)]
pub struct PlannedObject {
    pub kind: ManifestObjectType,
    pub name: String,
    pub description: String,
    pub source: Source,
    pub properties: Option<Vec<String>>,
}

/// Why no plan could be made.
#[derive(Clone, Debug)]
pub enum PlanError {
    /// The welcome banner's path names no file.
    NoFileName(String),
    /// A target includes a guest label that no guest entry defines.
    UndefinedGuest { label: String, target: String },
}

pub ghost enum SourceModel {
    File(Seq<Seq<char>>),
    Service(Seq<Seq<char>>),
    Guest(Seq<Seq<char>>, Seq<Seq<char>>, Option<Seq<char>>),
}

pub ghost struct PlanModel {
    pub kind: ManifestObjectType,
    pub name: Seq<char>,
    pub description: Seq<char>,
    pub source: SourceModel,
    pub properties: Option<Seq<Seq<char>>>,
}

pub ghost enum PlanErrorModel {
    NoFileName(Seq<char>),
    UndefinedGuest(Seq<char>, Seq<char>),
}

impl View for Source {
    type V = SourceModel;

    open spec fn view(&self) -> SourceModel {
        match self {
            Source::File(p) => SourceModel::File(p@),
            Source::Service(p) => SourceModel::Service(p@),
            Source::Guest { dir, path, url } => SourceModel::Guest(dir@, path@, opt_text(*url)),
        }
    }
}

pub open spec fn opt_texts(p: Option<Vec<String>>) -> Option<Seq<Seq<char>>> {
    match p {
        Some(v) => Some(texts_view(v@)),
        None => None,
    }
}

impl View for PlannedObject {
    type V = PlanModel;

    open spec fn view(&self) -> PlanModel {
        PlanModel {
            kind: self.kind,
            name: self.name@,
            description: self.description@,
            source: self.source@,
            properties: opt_texts(self.properties),
        }
    }
}

impl View for PlanError {
    type V = PlanErrorModel;

    open spec fn view(&self) -> PlanErrorModel {
        match self {
            PlanError::NoFileName(p) => PlanErrorModel::NoFileName(p@),
            PlanError::UndefinedGuest { label, target } => PlanErrorModel::UndefinedGuest(
                label@,
                target@,
            ),
        }
    }
}

pub open spec fn plans_view(v: Seq<PlannedObject>) -> Seq<PlanModel> {
    v.map_values(|p: PlannedObject| p@)
}

/// The first position at or after `i` that holds `n`.
pub open spec fn index_from(names: Seq<Seq<char>>, n: Seq<char>, i: int) -> Option<int>
    decreases names.len() - i,
{
    if i < 0 || i >= names.len() {
        None
    } else if names[i] == n {
        Some(i)
    } else {
        index_from(names, n, i + 1)
    }
}

pub open spec fn service_names(t: Seq<ServiceEntry>) -> Seq<Seq<char>> {
    t.map_values(|e: ServiceEntry| e.name@)
}

pub open spec fn guest_labels(t: Seq<GuestEntry>) -> Seq<Seq<char>> {
    t.map_values(|e: GuestEntry| e.label@)
}

pub open spec fn target_archs(t: Seq<TargetEntry>) -> Seq<Seq<char>> {
    t.map_values(|e: TargetEntry| e.arch@)
}

/// The name `std::path::Path::file_name` gives a path's last component.
pub uninterp spec fn file_name_of(p: Seq<char>) -> Option<Seq<char>>;

pub open spec fn arch_banner_description(base_arch: Seq<char>) -> Seq<char> {
    "Boot banner text for "@ + base_arch + " systems"@
}

/// The architecture's boot banner, where a banner directory is configured and
/// the target names a known family.
pub open spec fn arch_banner_items(c: Config, s: Settings, base: Seq<char>) -> Seq<PlanModel> {
    match (c.banner_dir, s.target_arch) {
        (Some(d), Some(t)) => match base_arch_of(t@) {
            Some(a) => seq![
                PlanModel {
                    kind: ManifestObjectType::BootMsg,
                    name: banner_file(a),
                    description: arch_banner_description(a),
                    source: SourceModel::File(seq![base, d@, banner_file(a)]),
                    properties: None,
                },
            ],
            None => Seq::empty(),
        },
        _ => Seq::empty(),
    }
}

/// The welcome banner at `welcome`, named `file_name`.
pub open spec fn welcome_item(base: Seq<char>, welcome: Seq<char>, file_name: Option<Seq<char>>) -> Result<
    PlanModel,
    PlanErrorModel,
> {
    match file_name {
        Some(n) => Ok(
            PlanModel {
                kind: ManifestObjectType::BootMsg,
                name: n,
                description: "Main boot banner text"@,
                source: SourceModel::File(seq![base, welcome]),
                properties: None,
            },
        ),
        None => Err(PlanErrorModel::NoFileName(welcome)),
    }
}

pub open spec fn welcome_items(c: Config, base: Seq<char>) -> Result<Seq<PlanModel>, PlanErrorModel> {
    match c.welcome {
        Some(w) => match welcome_item(base, w@, file_name_of(w@)) {
            Ok(p) => Ok(seq![p]),
            Err(e) => Err(e),
        },
        None => Ok(Seq::empty()),
    }
}

pub open spec fn service_item(e: ServiceEntry, name: Seq<char>, base: Seq<char>) -> PlanModel {
    PlanModel {
        kind: ManifestObjectType::SystemService,
        name: name,
        description: e.description@,
        source: SourceModel::Service(target_dir_spec(base, e.path@)),
        properties: opt_texts(e.properties),
    }
}

/// The services named in `wanted` that `table` defines, in the order of
/// `wanted`; a name the table lacks is passed over.
pub open spec fn service_items(
    wanted: Seq<Seq<char>>,
    table: Seq<ServiceEntry>,
    base: Seq<char>,
) -> Seq<PlanModel>
    decreases wanted.len(),
{
    if wanted.len() == 0 {
        Seq::empty()
    } else {
        let rest = service_items(wanted.drop_last(), table, base);
        match index_from(service_names(table), wanted.last(), 0) {
            Some(k) => rest.push(service_item(table[k], wanted.last(), base)),
            None => rest,
        }
    }
}

pub open spec fn services_part(c: Config, s: Settings, base: Seq<char>) -> Seq<PlanModel> {
    match (c.services_include, c.services) {
        (Some(inc), Some(table)) => if s.no_services {
            Seq::empty()
        } else {
            service_items(texts_view(inc@), table@, base)
        },
        _ => Seq::empty(),
    }
}

pub open spec fn guest_item(e: GuestEntry, label: Seq<char>, base: Seq<char>) -> PlanModel {
    PlanModel {
        kind: ManifestObjectType::GuestOS,
        name: label,
        description: e.description@,
        source: SourceModel::Guest(
            seq![base, e.path@],
            seq![base, e.path@, label],
            opt_text(e.url),
        ),
        properties: None,
    }
}

/// The guests `labels` names, in that order; the first label that `table`
/// does not define is an error.
pub open spec fn guest_items(
    labels: Seq<Seq<char>>,
    table: Seq<GuestEntry>,
    base: Seq<char>,
    target: Seq<char>,
) -> Result<Seq<PlanModel>, PlanErrorModel>
    decreases labels.len(),
{
    if labels.len() == 0 {
        Ok(Seq::empty())
    } else {
        match guest_items(labels.drop_last(), table, base, target) {
            Ok(rest) => match index_from(guest_labels(table), labels.last(), 0) {
                Some(k) => Ok(rest.push(guest_item(table[k], labels.last(), base))),
                None => Err(PlanErrorModel::UndefinedGuest(labels.last(), target)),
            },
            Err(e) => Err(e),
        }
    }
}

pub open spec fn guest_table(c: Config) -> Seq<GuestEntry> {
    match c.guests {
        Some(t) => t@,
        None => Seq::empty(),
    }
}

/// The guests the target architecture's entry lists, unless guests are skipped.
pub open spec fn guests_part(c: Config, s: Settings, base: Seq<char>) -> Result<
    Seq<PlanModel>,
    PlanErrorModel,
> {
    match (s.target_arch, c.targets) {
        (Some(t), Some(targets)) => if s.no_guests {
            Ok(Seq::empty())
        } else {
            match index_from(target_archs(targets@), t@, 0) {
                Some(k) => match targets@[k].guests {
                    Some(gs) => guest_items(texts_view(gs@), guest_table(c), base, t@),
                    None => Ok(Seq::empty()),
                },
                None => Ok(Seq::empty()),
            }
        },
        _ => Ok(Seq::empty()),
    }
}

/// The whole plan: banners, then services, then guests.
pub open spec fn plan_spec(c: Config, s: Settings, base: Seq<char>) -> Result<
    Seq<PlanModel>,
    PlanErrorModel,
> {
    match welcome_items(c, base) {
        Ok(w) => match guests_part(c, s, base) {
            Ok(g) => Ok(arch_banner_items(c, s, base) + w + services_part(c, s, base) + g),
            Err(e) => Err(e),
        },
        Err(e) => Err(e),
    }
}

impl PlannedObject {
    /// The manifest entry for this object, once its payload has been read.
    pub fn into_object(self, data: Vec<u8>) -> (r: ManifestObject)
        ensures
            r@ == (ObjectModel {
                kind: self.kind,
                name: self.name@,
                description: self.description@,
                data: data@,
                properties: opt_texts(self.properties),
            }),
    {
        ManifestObject::new(
            self.kind,
            self.name,
            self.description,
            ManifestObjectData::Bytes(data),
            self.properties,
        )
    }
}

/// A position that the search finds holds the name searched for.
proof fn lemma_index_from(names: Seq<Seq<char>>, n: Seq<char>, i: int)
    ensures
        match index_from(names, n, i) {
            Some(k) => i <= k < names.len() && names[k] == n,
            None => true,
        },
    decreases names.len() - i,
{
    if 0 <= i < names.len() && names[i] != n {
        lemma_index_from(names, n, i + 1);
    }
}

/// Relies on std::path::Path::file_name, with `to_str`, which cannot fail on
/// a path made from a `&str`: the path's last component, if it has one.
#[verifier::external_body]
fn last_component(p: &String) -> (r: Option<String>)
    ensures
        opt_text(r) == file_name_of(p@),
{
    std::path::Path::new(p.as_str()).file_name().and_then(|n| n.to_str()).map(|n| n.to_string())
}

fn find_service(table: &Vec<ServiceEntry>, name: &String) -> (r: Option<usize>)
    ensures
        match r {
            Some(k) => index_from(service_names(table@), name@, 0) == Some(k as int) && k < table@.len()
                && table@[k as int].name@ == name@,
            None => index_from(service_names(table@), name@, 0) is None,
        },
{
    let ghost names = service_names(table@);
    let mut i: usize = 0;
    while i < table.len()
        invariant
            i <= table@.len(),
            names == service_names(table@),
            index_from(names, name@, 0) == index_from(names, name@, i as int),
        decreases table@.len() - i,
    {
        if table[i].name == *name {
            proof {
                lemma_index_from(names, name@, 0);
            }
            return Some(i);
        }
        i = i + 1;
    }
    None
}

fn find_guest(table: &Vec<GuestEntry>, label: &String) -> (r: Option<usize>)
    ensures
        match r {
            Some(k) => index_from(guest_labels(table@), label@, 0) == Some(k as int) && k < table@.len()
                && table@[k as int].label@ == label@,
            None => index_from(guest_labels(table@), label@, 0) is None,
        },
{
    let ghost names = guest_labels(table@);
    let mut i: usize = 0;
    while i < table.len()
        invariant
            i <= table@.len(),
            names == guest_labels(table@),
            index_from(names, label@, 0) == index_from(names, label@, i as int),
        decreases table@.len() - i,
    {
        if table[i].label == *label {
            proof {
                lemma_index_from(names, label@, 0);
            }
            return Some(i);
        }
        i = i + 1;
    }
    None
}

fn find_target(table: &Vec<TargetEntry>, arch: &String) -> (r: Option<usize>)
    ensures
        match r {
            Some(k) => index_from(target_archs(table@), arch@, 0) == Some(k as int) && k < table@.len()
                && table@[k as int].arch@ == arch@,
            None => index_from(target_archs(table@), arch@, 0) is None,
        },
{
    let ghost names = target_archs(table@);
    let mut i: usize = 0;
    while i < table.len()
        invariant
            i <= table@.len(),
            names == target_archs(table@),
            index_from(names, arch@, 0) == index_from(names, arch@, i as int),
        decreases table@.len() - i,
    {
        if table[i].arch == *arch {
            proof {
                lemma_index_from(names, arch@, 0);
            }
            return Some(i);
        }
        i = i + 1;
    }
    None
}

/// The architecture's boot banner, if any, appended to `out`.
fn plan_arch_banner(config: &Config, settings: &Settings, base: &String, out: &mut Vec<PlannedObject>)
    ensures
        plans_view(final(out)@) == plans_view(old(out)@) + arch_banner_items(
            *config,
            *settings,
            base@,
        ),
{
    let ghost start = plans_view(out@);
    match (&config.banner_dir, &settings.target_arch) {
        (Some(d), Some(t)) => match get_base_arch(t) {
            Some(a) => {
                let description = String::from_str("Boot banner text for ").concat(
                    a.as_str(),
                ).concat(" systems");
                let p = PlannedObject {
                    kind: ManifestObjectType::BootMsg,
                    name: a.clone().concat(".txt"),
                    description,
                    source: Source::File(banner_path(base, d, &a)),
                    properties: None,
                };
                out.push(p);
            },
            None => {},
        },
        _ => {},
    }
    assert(plans_view(out@) =~= start + arch_banner_items(*config, *settings, base@));
}

/// The welcome banner at `welcome`, given the name of its last component.
pub fn welcome_banner(base: &String, welcome: &String, file_name: Option<String>) -> (r: Result<
    PlannedObject,
    PlanError,
>)
    ensures
        match r {
            Ok(p) => welcome_item(base@, welcome@, opt_text(file_name)) == Ok::<
                PlanModel,
                PlanErrorModel,
            >(p@),
            Err(e) => welcome_item(base@, welcome@, opt_text(file_name)) == Err::<
                PlanModel,
                PlanErrorModel,
            >(e@),
        },
{
    match file_name {
        Some(n) => Ok(
            PlannedObject {
                kind: ManifestObjectType::BootMsg,
                name: n,
                description: String::from_str("Main boot banner text"),
                source: Source::File(file_path(base, welcome)),
                properties: None,
            },
        ),
        None => Err(PlanError::NoFileName(welcome.clone())),
    }
}

/// The services named in `wanted` that `table` defines, appended to `out`.
fn plan_services(
    wanted: &Vec<String>,
    table: &Vec<ServiceEntry>,
    base: &String,
    out: &mut Vec<PlannedObject>,
)
    ensures
        plans_view(final(out)@) == plans_view(old(out)@) + service_items(
            texts_view(wanted@),
            table@,
            base@,
        ),
{
    let ghost start = plans_view(out@);
    let mut i: usize = 0;
    while i < wanted.len()
        invariant
            i <= wanted@.len(),
            plans_view(out@) == start + service_items(
                texts_view(wanted@).take(i as int),
                table@,
                base@,
            ),
        decreases wanted@.len() - i,
    {
        let name = &wanted[i];
        let ghost before = out@;
        proof {
            assert(texts_view(wanted@).take(i + 1).drop_last() =~= texts_view(wanted@).take(
                i as int,
            ));
        }
        match find_service(table, name) {
            Some(k) => {
                let e = &table[k];
                out.push(
                    PlannedObject {
                        kind: ManifestObjectType::SystemService,
                        name: name.clone(),
                        description: e.description.clone(),
                        source: Source::Service(service_target_dir(base, &e.path)),
                        properties: e.properties.clone(),
                    },
                );
                assert(plans_view(out@) =~= plans_view(before).push(
                    service_item(table@[k as int], name@, base@),
                ));
            },
            None => {},
        }
        i = i + 1;
    }
    assert(texts_view(wanted@).take(i as int) =~= texts_view(wanted@));
}

/// Once a prefix of the labels fails, every longer prefix fails the same way.
proof fn lemma_guest_error_stays(
    labels: Seq<Seq<char>>,
    table: Seq<GuestEntry>,
    base: Seq<char>,
    target: Seq<char>,
    i: int,
    j: int,
)
    requires
        0 <= i <= j <= labels.len(),
        guest_items(labels.take(i), table, base, target) is Err,
    ensures
        guest_items(labels.take(j), table, base, target) == guest_items(
            labels.take(i),
            table,
            base,
            target,
        ),
    decreases j - i,
{
    if j > i {
        lemma_guest_error_stays(labels, table, base, target, i, j - 1);
        assert(labels.take(j).drop_last() =~= labels.take(j - 1));
    }
}

/// The guests `labels` names, appended to `out`; fails on the first label
/// that `table` does not define.
fn plan_guests(
    labels: &Vec<String>,
    table: &Vec<GuestEntry>,
    base: &String,
    target: &String,
    out: &mut Vec<PlannedObject>,
) -> (r: Result<(), PlanError>)
    ensures
        match guest_items(texts_view(labels@), table@, base@, target@) {
            Ok(g) => r is Ok && plans_view(final(out)@) == plans_view(old(out)@) + g,
            Err(e) => r matches Err(x) && x@ == e,
        },
{
    let ghost start = plans_view(out@);
    let ghost ls = texts_view(labels@);
    let ghost mut g: Seq<PlanModel> = Seq::empty();
    let mut i: usize = 0;
    while i < labels.len()
        invariant
            i <= labels@.len(),
            ls == texts_view(labels@),
            plans_view(out@) == start + g,
            guest_items(ls.take(i as int), table@, base@, target@) == Ok::<
                Seq<PlanModel>,
                PlanErrorModel,
            >(g),
        decreases labels@.len() - i,
    {
        let label = &labels[i];
        proof {
            assert(ls.take(i + 1).drop_last() =~= ls.take(i as int));
        }
        match find_guest(table, label) {
            Some(k) => {
                let e = &table[k];
                let ghost before = out@;
                out.push(
                    PlannedObject {
                        kind: ManifestObjectType::GuestOS,
                        name: label.clone(),
                        description: e.description.clone(),
                        source: Source::Guest {
                            dir: file_path(base, &e.path),
                            path: guest_path(base, &e.path, label),
                            url: e.url.clone(),
                        },
                        properties: None,
                    },
                );
                proof {
                    g = g.push(guest_item(table@[k as int], label@, base@));
                    assert(plans_view(out@) =~= plans_view(before).push(
                        guest_item(table@[k as int], label@, base@),
                    ));
                }
            },
            None => {
                proof {
                    lemma_guest_error_stays(ls, table@, base@, target@, i + 1, ls.len() as int);
                    assert(ls.take(ls.len() as int) =~= ls);
                }
                return Err(PlanError::UndefinedGuest { label: label.clone(), target: target.clone() });
            },
        }
        i = i + 1;
    }
    assert(ls.take(i as int) =~= ls);
    Ok(())
}

/// Plans the objects of one image from the configuration and the settings,
/// with every path relative to `base`: the architecture's boot banner and the
/// welcome banner, then the services wanted (unless skipped), then the guests
/// of the target architecture (unless skipped). Fails where the welcome path
/// names no file, or where the target lists a guest that is not defined.
pub fn build_plan(config: &Config, settings: &Settings, base: &String) -> (r: Result<
    Vec<PlannedObject>,
    PlanError,
>)
    ensures
        match r {
            Ok(v) => plan_spec(*config, *settings, base@) == Ok::<
                Seq<PlanModel>,
                PlanErrorModel,
            >(plans_view(v@)),
            Err(e) => plan_spec(*config, *settings, base@) == Err::<
                Seq<PlanModel>,
                PlanErrorModel,
            >(e@),
        },
{
    let mut out: Vec<PlannedObject> = Vec::new();
    assert(plans_view(out@) =~= Seq::<PlanModel>::empty());
    plan_arch_banner(config, settings, base, &mut out);
    let ghost after_arch = plans_view(out@);
    let ghost mut wel: Seq<PlanModel> = Seq::empty();
    match &config.welcome {
        Some(w) => match welcome_banner(base, w, last_component(w)) {
            Ok(p) => {
                proof {
                    wel = seq![p@];
                }
                out.push(p);
            },
            Err(e) => return Err(e),
        },
        None => {},
    }
    let ghost after_banners = plans_view(out@);
    assert(after_banners =~= after_arch + wel);
    assert(welcome_items(*config, base@) == Ok::<Seq<PlanModel>, PlanErrorModel>(wel));
    match (&config.services_include, &config.services) {
        (Some(wanted), Some(table)) => {
            if !settings.no_services {
                plan_services(wanted, table, base, &mut out);
            }
        },
        _ => {},
    }
    let ghost after_services = plans_view(out@);
    let empty: Vec<GuestEntry> = Vec::new();
    let guests = match &config.guests {
        Some(t) => t,
        None => &empty,
    };
    assert(guests@ == guest_table(*config));
    match (&settings.target_arch, &config.targets) {
        (Some(t), Some(targets)) => {
            if !settings.no_guests {
                match find_target(targets, t) {
                    Some(k) => match &targets[k].guests {
                        Some(gs) => {
                            let r = plan_guests(gs, guests, base, t, &mut out);
                            if let Err(e) = r {
                                return Err(e);
                            }
                        },
                        None => {},
                    },
                    None => {},
                }
            }
        },
        _ => {},
    }
    proof {
        let g = plans_view(out@).skip(after_services.len() as int);
        assert(plans_view(out@) =~= after_services + g);
    }
    Ok(out)
}

} // verus!
