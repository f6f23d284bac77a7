use mkdmfs::manifest::{ImageError, Manifest, ManifestObject, ManifestObjectData, ManifestObjectType};

fn read32(b: &[u8], i: usize) -> u32 {
    u32::from_le_bytes([b[i], b[i + 1], b[i + 2], b[i + 3]])
}

struct Decoded {
    kind: u32,
    name: String,
    description: String,
    properties: Option<Vec<String>>,
    data: Vec<u8>,
}

fn decode(b: &[u8]) -> Vec<Decoded> {
    assert_eq!(&b[0..4], b"DMFS");
    assert_eq!(read32(b, 4), 1);
    let n = read32(b, 8) as usize;
    let base = 12 + 36 * n;
    let mut out = Vec::new();
    for i in 0..n {
        let r = 12 + 36 * i;
        let part = |o: usize, l: usize| b[base + o..base + o + l].to_vec();
        let name = part(read32(b, r + 4) as usize, read32(b, r + 8) as usize);
        let description = part(read32(b, r + 12) as usize, read32(b, r + 16) as usize);
        let properties = if read32(b, r + 20) == 0xffff_ffff {
            None
        } else {
            let pb = part(read32(b, r + 20) as usize, read32(b, r + 24) as usize);
            let mut ps = Vec::new();
            let mut k = 0;
            while k < pb.len() {
                let l = read32(&pb, k) as usize;
                ps.push(String::from_utf8(pb[k + 4..k + 4 + l].to_vec()).unwrap());
                k += 4 + l;
            }
            Some(ps)
        };
        let data = part(read32(b, r + 28) as usize, read32(b, r + 32) as usize);
        out.push(Decoded {
            kind: read32(b, r),
            name: String::from_utf8(name).unwrap(),
            description: String::from_utf8(description).unwrap(),
            properties,
            data,
        });
    }
    out
}

fn object(kind: ManifestObjectType, name: &str, data: &[u8], props: Option<Vec<&str>>) -> ManifestObject {
    ManifestObject::new(
        kind,
        name.to_string(),
        format!("about {}", name),
        ManifestObjectData::Bytes(data.to_vec()),
        props.map(|v| v.into_iter().map(|s| s.to_string()).collect()),
    )
}

#[test]
fn empty_manifest_image_is_header_only() {
    let m = Manifest::new();
    assert_eq!(m.len(), 0);
    let img = m.to_image().unwrap();
    assert_eq!(img, vec![0x44, 0x4d, 0x46, 0x53, 1, 0, 0, 0, 0, 0, 0, 0]);
}

#[test]
fn one_object_exact_bytes() {
    let mut m = Manifest::new();
    m.add(ManifestObject::new(
        ManifestObjectType::GuestOS,
        "ab".to_string(),
        "c".to_string(),
        ManifestObjectData::Bytes(vec![9, 8]),
        None,
    ));
    let img = m.to_image().unwrap();
    let mut want: Vec<u8> = vec![0x44, 0x4d, 0x46, 0x53, 1, 0, 0, 0, 1, 0, 0, 0];
    for v in [2u32, 0, 2, 2, 1, 0xffff_ffff, 0, 3, 2] {
        want.extend_from_slice(&v.to_le_bytes());
    }
    want.extend_from_slice(b"abc");
    want.extend_from_slice(&[9, 8]);
    assert_eq!(img, want);
}

#[test]
fn directory_lists_objects_in_insertion_order() {
    let mut m = Manifest::new();
    m.add(object(ManifestObjectType::BootMsg, "A", b"first", None));
    m.add(object(ManifestObjectType::SystemService, "B", b"second", Some(vec!["console_write"])));
    m.add(object(ManifestObjectType::GuestOS, "C", b"third", None));
    let img = m.to_image().unwrap();
    assert_eq!(read32(&img, 8), 3);
    let objs = decode(&img);
    assert_eq!(objs.len(), 3);
    let names: Vec<&str> = objs.iter().map(|o| o.name.as_str()).collect();
    assert_eq!(names, vec!["A", "B", "C"]);
    assert_eq!(objs[0].kind, 0);
    assert_eq!(objs[1].kind, 1);
    assert_eq!(objs[2].kind, 2);
}

#[test]
fn decoding_recovers_every_object() {
    let mut m = Manifest::new();
    m.add(object(ManifestObjectType::BootMsg, "riscv.txt", b"hello riscv\n", None));
    m.add(object(
        ManifestObjectType::SystemService,
        "gooey",
        &[0, 1, 2, 255],
        Some(vec!["auto_crash_restart", "service_console", "console_read"]),
    ));
    m.add(object(ManifestObjectType::SystemService, "empty", &[], Some(vec![])));
    m.add(object(ManifestObjectType::GuestOS, "linux-é", &[7; 100], None));
    let objs = decode(&m.to_image().unwrap());
    assert_eq!(objs.len(), 4);
    assert_eq!(objs[0].name, "riscv.txt");
    assert_eq!(objs[0].description, "about riscv.txt");
    assert_eq!(objs[0].data, b"hello riscv\n".to_vec());
    assert_eq!(objs[0].properties, None);
    assert_eq!(objs[1].kind, 1);
    assert_eq!(objs[1].data, vec![0, 1, 2, 255]);
    assert_eq!(
        objs[1].properties,
        Some(vec![
            "auto_crash_restart".to_string(),
            "service_console".to_string(),
            "console_read".to_string()
        ])
    );
    assert_eq!(objs[2].properties, Some(vec![]));
    assert_eq!(objs[2].data, Vec::<u8>::new());
    assert_eq!(objs[3].name, "linux-é");
    assert_eq!(objs[3].kind, 2);
    assert_eq!(objs[3].data, vec![7; 100]);
}

#[test]
fn duplicate_names_are_both_encoded() {
    let mut m = Manifest::new();
    m.add(object(ManifestObjectType::BootMsg, "same", b"1", None));
    m.add(object(ManifestObjectType::BootMsg, "same", b"2", None));
    let objs = decode(&m.to_image().unwrap());
    assert_eq!(objs.len(), 2);
    assert_eq!(objs[0].data, b"1".to_vec());
    assert_eq!(objs[1].data, b"2".to_vec());
}

#[test]
fn encoding_twice_gives_identical_bytes() {
    let mut m = Manifest::new();
    m.add(object(ManifestObjectType::BootMsg, "a", b"xyz", None));
    m.add(object(ManifestObjectType::SystemService, "s", b"bin", Some(vec!["console_write"])));
    let first = m.to_image().unwrap();
    let second = m.to_image().unwrap();
    assert_eq!(first, second);
    let copy = m.clone();
    assert_eq!(copy.to_image().unwrap(), first);
}

#[test]
fn image_error_is_reportable() {
    let e = ImageError::TooLarge;
    assert_eq!(e, ImageError::TooLarge);
    assert_eq!(format!("{:?}", e), "TooLarge");
}
