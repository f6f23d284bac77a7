use mkdmfs::acquire::{plan_acquisition, Acquisition};
use mkdmfs::arch::get_base_arch;
use mkdmfs::manifest::{Manifest, ManifestObjectType};
use mkdmfs::paths::{arch_probe, service_path, service_target_dir, ResolvedPath};
use mkdmfs::plan::{build_plan, welcome_banner, Config, GuestEntry, PlanError, ServiceEntry, Source, TargetEntry};
use mkdmfs::settings::{coalesce, CommandLine, Defaults, Settings};

fn s(x: &str) -> String {
    x.to_string()
}

fn arch(t: &str) -> Option<String> {
    get_base_arch(&s(t))
}

fn parts(p: &ResolvedPath) -> Vec<&str> {
    p.parts.iter().map(|x| x.as_str()).collect()
}

fn settings(target: Option<&str>, quality: Option<&str>) -> Settings {
    Settings {
        output_filename: Some(s("dmfs.img")),
        target_arch: target.map(s),
        quality: quality.map(s),
        verbose: false,
        no_downloads: false,
        no_services: false,
        no_guests: false,
    }
}

fn empty_config() -> Config {
    Config { banner_dir: None, welcome: None, services_include: None, services: None, guests: None, targets: None }
}

#[test]
fn base_arch_of_known_families() {
    assert_eq!(arch("riscv64gc-unknown-none-elf"), Some(s("riscv")));
    assert_eq!(arch("aarch64-unknown-linux-gnu"), Some(s("aarch64")));
    assert_eq!(arch("armv7-unknown-linux-gnueabihf"), Some(s("arm")));
    assert_eq!(arch("powerpc64le-unknown-linux-gnu"), Some(s("powerpc64")));
    assert_eq!(arch("x86_64-unknown-linux-gnu"), Some(s("x86_64")));
    assert_eq!(arch("my-riscv"), Some(s("riscv")));
}

#[test]
fn base_arch_takes_leftmost_token() {
    assert_eq!(arch("arm-riscv"), Some(s("arm")));
    assert_eq!(arch("xx86_64riscv"), Some(s("x86_64")));
}

#[test]
fn base_arch_of_unknown_is_none() {
    assert_eq!(arch("mips-unknown-linux-gnu"), None);
    assert_eq!(arch(""), None);
    assert_eq!(arch("powerpc-unknown"), None);
}

#[test]
fn service_path_omits_missing_arch_dir() {
    let t = service_target_dir(&s("/base"), &s("services/gooey"));
    assert_eq!(parts(&t), vec!["/base", "services/gooey", "target"]);
    let ta = Some(s("riscv64gc-unknown-none-elf"));
    let probe = arch_probe(&t, ta.as_ref().unwrap());
    assert_eq!(parts(&probe), vec!["/base", "services/gooey", "target", "riscv64gc-unknown-none-elf"]);
    let without = service_path(&t, &ta, false, &Some(s("debug")), &s("gooey"));
    assert_eq!(parts(&without), vec!["/base", "services/gooey", "target", "debug", "gooey"]);
    let with = service_path(&t, &ta, true, &Some(s("debug")), &s("gooey"));
    assert_eq!(
        parts(&with),
        vec!["/base", "services/gooey", "target", "riscv64gc-unknown-none-elf", "debug", "gooey"]
    );
    let bare = service_path(&t, &None, true, &None, &s("gooey"));
    assert_eq!(parts(&bare), vec!["/base", "services/gooey", "target", "gooey"]);
}

#[test]
fn acquisition_decisions() {
    assert!(matches!(plan_acquisition(true, &None, false), Acquisition::Present));
    assert!(matches!(plan_acquisition(true, &Some(s("http://x/y")), false), Acquisition::Present));
    assert!(matches!(plan_acquisition(false, &None, false), Acquisition::Missing));
    assert!(matches!(plan_acquisition(false, &Some(s("http://x/y")), true), Acquisition::Missing));
    match plan_acquisition(false, &Some(s("http://x/y")), false) {
        Acquisition::Fetch(u) => assert_eq!(u, "http://x/y"),
        other => panic!("expected a fetch, got {:?}", other),
    }
}

#[test]
fn settings_fall_back_to_defaults() {
    assert_eq!(coalesce(Some(s("a")), &Some(s("b"))), Some(s("a")));
    assert_eq!(coalesce(None, &Some(s("b"))), Some(s("b")));
    assert_eq!(coalesce(None, &None), None);
    let opts = CommandLine {
        output: None,
        target: Some(s("riscv64gc-unknown-none-elf")),
        quality: None,
        verbose: true,
        skip_downloads: true,
        skip_services: false,
        skip_guests: true,
    };
    let defaults = Defaults { arch: Some(s("x86_64")), quality: Some(s("release")), outfile: Some(s("out.img")) };
    let st = Settings::new(opts, &defaults);
    assert_eq!(st.output_filename, Some(s("out.img")));
    assert_eq!(st.target_arch, Some(s("riscv64gc-unknown-none-elf")));
    assert_eq!(st.quality, Some(s("release")));
    assert!(st.verbose && st.no_downloads && !st.no_services && st.no_guests);
}

#[test]
fn banners_for_riscv_end_to_end() {
    let mut c = empty_config();
    c.banner_dir = Some(s("boot/banners"));
    c.welcome = Some(s("boot/banners/welcome.txt"));
    let st = settings(Some("riscv64gc-unknown-none-elf"), Some("debug"));
    let plan = build_plan(&c, &st, &s("/base")).unwrap();
    assert_eq!(plan.len(), 2);
    assert_eq!(plan[0].kind, ManifestObjectType::BootMsg);
    assert_eq!(plan[0].name, "riscv.txt");
    assert_eq!(plan[0].description, "Boot banner text for riscv systems");
    match &plan[0].source {
        Source::File(p) => assert_eq!(parts(p), vec!["/base", "boot/banners", "riscv.txt"]),
        other => panic!("unexpected source {:?}", other),
    }
    assert_eq!(plan[1].kind, ManifestObjectType::BootMsg);
    assert_eq!(plan[1].name, "welcome.txt");
    assert_eq!(plan[1].description, "Main boot banner text");
    match &plan[1].source {
        Source::File(p) => assert_eq!(parts(p), vec!["/base", "boot/banners/welcome.txt"]),
        other => panic!("unexpected source {:?}", other),
    }
    let payloads: Vec<Vec<u8>> = vec![b"RISC-V banner\n".to_vec(), b"Welcome\n".to_vec()];
    let mut m = Manifest::new();
    for (p, d) in plan.into_iter().zip(payloads.iter()) {
        m.add(p.into_object(d.clone()));
    }
    let img = m.to_image().unwrap();
    assert_eq!(u32::from_le_bytes([img[8], img[9], img[10], img[11]]), 2);
    let r0 = &img[12..48];
    let r1 = &img[48..84];
    let w = |r: &[u8], k: usize| u32::from_le_bytes([r[4 * k], r[4 * k + 1], r[4 * k + 2], r[4 * k + 3]]) as usize;
    assert_eq!(w(r0, 0), 0);
    assert_eq!(w(r1, 0), 0);
    let base = 84;
    assert_eq!(&img[base + w(r0, 7)..base + w(r0, 7) + w(r0, 8)], b"RISC-V banner\n");
    assert_eq!(&img[base + w(r1, 7)..base + w(r1, 7) + w(r1, 8)], b"Welcome\n");
}

#[test]
fn unknown_arch_skips_arch_banner() {
    let mut c = empty_config();
    c.banner_dir = Some(s("banners"));
    let plan = build_plan(&c, &settings(Some("mips-unknown"), None), &s("/b")).unwrap();
    assert!(plan.is_empty());
    let plan = build_plan(&c, &settings(None, None), &s("/b")).unwrap();
    assert!(plan.is_empty());
}

#[test]
fn welcome_without_file_name_fails() {
    match welcome_banner(&s("/b"), &s(".."), None) {
        Err(PlanError::NoFileName(p)) => assert_eq!(p, ".."),
        other => panic!("unexpected {:?}", other),
    }
    let ok = welcome_banner(&s("/b"), &s("w/hello.txt"), Some(s("hello.txt"))).unwrap();
    assert_eq!(ok.name, "hello.txt");
    let mut c = empty_config();
    c.welcome = Some(s("banners/.."));
    assert!(matches!(build_plan(&c, &settings(None, None), &s("/b")), Err(PlanError::NoFileName(_))));
}

fn service(name: &str, props: Option<Vec<&str>>) -> ServiceEntry {
    ServiceEntry {
        name: s(name),
        path: format!("services/{}", name),
        description: format!("the {} service", name),
        properties: props.map(|v| v.into_iter().map(s).collect()),
    }
}

#[test]
fn services_follow_the_wanted_order() {
    let mut c = empty_config();
    c.services_include = Some(vec![s("b"), s("missing"), s("a")]);
    c.services = Some(vec![service("a", None), service("b", Some(vec!["console_write", "console_read"]))]);
    let plan = build_plan(&c, &settings(Some("riscv64gc-unknown-none-elf"), Some("release")), &s("/base")).unwrap();
    assert_eq!(plan.len(), 2);
    assert_eq!(plan[0].name, "b");
    assert_eq!(plan[0].kind, ManifestObjectType::SystemService);
    assert_eq!(plan[0].description, "the b service");
    assert_eq!(plan[0].properties, Some(vec![s("console_write"), s("console_read")]));
    match &plan[0].source {
        Source::Service(t) => assert_eq!(parts(t), vec!["/base", "services/b", "target"]),
        other => panic!("unexpected source {:?}", other),
    }
    assert_eq!(plan[1].name, "a");
    assert_eq!(plan[1].properties, None);
    let mut st = settings(None, None);
    st.no_services = true;
    assert!(build_plan(&c, &st, &s("/base")).unwrap().is_empty());
}

fn guest(label: &str, url: Option<&str>) -> GuestEntry {
    GuestEntry { label: s(label), path: s("guests"), url: url.map(s), description: format!("{} guest", label) }
}

#[test]
fn guests_of_the_target_in_order() {
    let mut c = empty_config();
    c.guests = Some(vec![guest("linux", Some("https://example.org/linux")), guest("bsd", None)]);
    c.targets = Some(vec![
        TargetEntry { arch: s("x86_64-unknown"), guests: Some(vec![s("bsd")]) },
        TargetEntry { arch: s("riscv64gc-unknown-none-elf"), guests: Some(vec![s("bsd"), s("linux")]) },
    ]);
    let st = settings(Some("riscv64gc-unknown-none-elf"), None);
    let plan = build_plan(&c, &st, &s("/base")).unwrap();
    assert_eq!(plan.len(), 2);
    assert_eq!(plan[0].name, "bsd");
    assert_eq!(plan[1].name, "linux");
    assert_eq!(plan[1].kind, ManifestObjectType::GuestOS);
    assert_eq!(plan[1].description, "linux guest");
    match &plan[1].source {
        Source::Guest { dir, path, url } => {
            assert_eq!(parts(dir), vec!["/base", "guests"]);
            assert_eq!(parts(path), vec!["/base", "guests", "linux"]);
            assert_eq!(url.as_deref(), Some("https://example.org/linux"));
        }
        other => panic!("unexpected source {:?}", other),
    }
    let mut skip = st.clone();
    skip.no_guests = true;
    assert!(build_plan(&c, &skip, &s("/base")).unwrap().is_empty());
}

#[test]
fn undefined_guest_is_an_error() {
    let mut c = empty_config();
    c.targets = Some(vec![TargetEntry { arch: s("riscv64gc-unknown-none-elf"), guests: Some(vec![s("ghost"), s("other")]) }]);
    match build_plan(&c, &settings(Some("riscv64gc-unknown-none-elf"), None), &s("/base")) {
        Err(PlanError::UndefinedGuest { label, target }) => {
            assert_eq!(label, "ghost");
            assert_eq!(target, "riscv64gc-unknown-none-elf");
        }
        other => panic!("unexpected {:?}", other),
    }
}
