use drend::obj::{
    assemble_mesh, build_materials, find_texture, image_file, material_library, obj_indices_valid,
    scan_mtl, scan_obj, IndexedTri, MaterialTable, MtlLine, ObjLine, Texture,
};

fn text(cs: &[char]) -> String {
    cs.iter().collect()
}

/// The colour a `Kd` line sets, the way the frontend packs it.
fn kd_color(words: &[Vec<char>]) -> Option<u32> {
    let p: Vec<f32> = words.iter().filter_map(|w| text(w).parse().ok()).collect();
    if p.len() >= 3 {
        Some(
            (p[0] * 255.0).round() as u32 * 0x10000
                | (p[1] * 255.0).round() as u32 * 0x100
                | (p[2] * 255.0).round() as u32,
        )
    } else {
        None
    }
}

struct Loaded {
    lines: Vec<ObjLine>,
    tris: Vec<IndexedTri>,
}

fn load(obj: &str, mtl: Option<&str>, images: &[(String, Texture)], textures: &mut Vec<Texture>, fallback: i32) -> Loaded {
    let table = match mtl {
        Some(m) => {
            let lines = scan_mtl(m);
            let kd: Vec<Option<u32>> = lines
                .iter()
                .map(|l| match l {
                    MtlLine::Kd(w) => kd_color(w),
                    _ => None,
                })
                .collect();
            build_materials(&lines, &kd, images, textures, fallback)
        }
        None => MaterialTable::new(),
    };
    let lines = scan_obj(obj);
    assert!(obj_indices_valid(&lines));
    let tris = assemble_mesh(&lines, &table);
    Loaded { lines, tris }
}

fn words_of_kind(lines: &[ObjLine], tex: bool) -> Vec<Vec<f32>> {
    lines
        .iter()
        .filter_map(|l| match (l, tex) {
            (ObjLine::Position(w), false) | (ObjLine::TexCoord(w), true) => {
                Some(w.iter().filter_map(|t| text(t).parse().ok()).collect())
            }
            _ => None,
        })
        .collect()
}

/// (u, v) of a corner, v flipped as the OBJ origin is bottom-left.
fn uv(l: &Loaded, k: Option<usize>) -> (f32, f32) {
    match k {
        Some(k) => {
            let t = &words_of_kind(&l.lines, true)[k];
            (t[0], 1.0 - t[1])
        }
        None => (0.0, 0.0),
    }
}

fn pos(l: &Loaded, k: usize) -> [f32; 3] {
    let p = &words_of_kind(&l.lines, false)[k];
    [p[0], p[1], p[2]]
}

#[test]
fn parses_quads_vt_and_negative_indices() {
    let obj = "v 0 0 0\nv 1 0 0\nv 1 1 0\nv 0 1 0\nvt 0 1\nvt 1 1\nvt 1 0\nvt 0 0\nf 1/1 2/2 3/3 4/4\nf -4/-4 -3/-3 -2/-2 -1/-1\n";
    let m = load(obj, None, &[], &mut vec![], -1);
    assert_eq!(m.tris.len(), 4, "two quads, two tris each");
    // v flip: vt (0,1) is the bottom-left OBJ corner -> v = 0
    assert_eq!(uv(&m, m.tris[0].a.uv).0, 0.0);
    assert_eq!(uv(&m, m.tris[0].a.uv).1, 0.0);
    assert_eq!(pos(&m, m.tris[0].c.pos)[2], 0.0);
    // negative indices refer to the last vertices, same vt -> same flipped v
    assert_eq!(uv(&m, m.tris[3].a.uv).0, 0.0);
    assert_eq!(uv(&m, m.tris[3].a.uv).1, 0.0);
}

#[test]
fn mtl_kd_and_map_kd() {
    let mtl = "newmtl mat\nKd 0.5 0.25 0.125\n";
    let obj = "v 0 0 0\nv 1 0 0\nv 0 1 0\nusemtl mat\nf 1 2 3\n";
    let m = load(obj, Some(mtl), &[], &mut vec![], -1);
    assert_eq!(m.tris.len(), 1);
    assert_eq!(m.tris[0].color, 0x804020);
    assert_eq!(m.tris[0].tex, -1, "no map_Kd -> flat");
}

#[test]
fn map_kd_appends_texture() {
    let mtl = "newmtl mat\nmap_Kd .\\tex.jpg\n";
    let obj = "v 0 0 0\nv 1 0 0\nv 0 1 0\nusemtl mat\nf 1 2 3\n";
    let mut textures = vec![];
    let img = Texture { w: 2, h: 2, data: vec![0; 16] };
    let m = load(obj, Some(mtl), &[(String::from(".\\tex.jpg"), img)], &mut textures, -1);
    assert_eq!(textures.len(), 1, "image appended to shared list");
    assert_eq!(m.tris[0].tex, 0);
}

#[test]
fn missing_mtl_falls_back_to_flat_gray() {
    let obj = "v 0 0 0\nv 1 0 0\nv 0 1 0\nf 1 2 3\n";
    let m = load(obj, None, &[], &mut vec![], 7);
    assert_eq!(m.tris[0].tex, -1, "no material -> flat");
    assert_eq!(m.tris[0].color, 0x9c9c9c);
}

#[test]
fn fan_triangulates_pentagon() {
    let obj = "v 0 0 0\nv 1 0 0\nv 2 1 0\nv 1 2 0\nv 0 1 0\nf 1 2 3 4 5\n";
    let m = load(obj, None, &[], &mut vec![], -1);
    assert_eq!(m.tris.len(), 3);
    for (i, t) in m.tris.iter().enumerate() {
        assert_eq!(t.a.pos, 0);
        assert_eq!(t.b.pos, i + 1);
        assert_eq!(t.c.pos, i + 2);
        assert_eq!(t.a.uv, None);
    }
}

#[test]
fn short_faces_are_dropped() {
    let obj = "v 0 0 0\nv 1 0 0\nv 0 1 0\nf 1 2\nf 1 2 3\n";
    let m = load(obj, None, &[], &mut vec![], -1);
    assert_eq!(m.tris.len(), 1);
}

#[test]
fn negative_one_is_the_last_vertex() {
    let obj = "v 0 0 0\nv 1 0 0\nv 0 1 0\nv 5 5 5\nf -1 -2 -3\n";
    let m = load(obj, None, &[], &mut vec![], -1);
    assert_eq!(m.tris[0].a.pos, 3);
    assert_eq!(m.tris[0].b.pos, 2);
    assert_eq!(m.tris[0].c.pos, 1);
}

#[test]
fn usemtl_governs_faces_until_the_next_usemtl() {
    let mtl = "newmtl red\nKd 1 0 0\nnewmtl green\nKd 0 1 0\n";
    let obj = "v 0 0 0\nv 1 0 0\nv 0 1 0\nusemtl red\nf 1 2 3\nf 1 2 3\nusemtl green\nf 1 2 3\n";
    let m = load(obj, Some(mtl), &[], &mut vec![], -1);
    assert_eq!(m.tris[0].color, 0xff0000);
    assert_eq!(m.tris[1].color, 0xff0000);
    assert_eq!(m.tris[2].color, 0x00ff00);
}

#[test]
fn usemtl_reaches_every_following_face() {
    let mtl = "newmtl mat\nKd 1 0 0\n";
    let obj = "v 0 0 0\nv 1 0 0\nv 0 1 0\nv 1 1 0\nusemtl mat\nf 1 2 3\nf 2 4 3\n";
    let m = load(obj, Some(mtl), &[], &mut vec![], 3);
    assert_eq!(m.tris.len(), 2);
    assert_eq!((m.tris[0].color, m.tris[0].tex), (0xff0000, 3));
    assert_eq!((m.tris[1].color, m.tris[1].tex), (0xff0000, 3));
}

#[test]
fn negative_texture_indices_count_back() {
    let obj = "v 0 0 0\nv 1 0 0\nv 1 1 0\nv 0 1 0\nvt 0 1\nvt 1 1\nvt 1 0\nvt 0 0\nf 1/1 2/2 3/3 4/4\nf -4/-4 -3/-3 -2/-2 -1/-1\n";
    let m = load(obj, None, &[], &mut vec![], -1);
    assert_eq!(uv(&m, m.tris[3].b.uv), (1.0, 1.0));
    assert_eq!(uv(&m, m.tris[3].c.uv), (0.0, 1.0));
    for k in 0..2 {
        assert_eq!(m.tris[k].a.uv, m.tris[k + 2].a.uv);
        assert_eq!(m.tris[k].b.uv, m.tris[k + 2].b.uv);
        assert_eq!(m.tris[k].c.uv, m.tris[k + 2].c.uv);
    }
}

#[test]
fn unknown_material_is_default() {
    let mtl = "newmtl red\nKd 1 0 0\n";
    let obj = "v 0 0 0\nv 1 0 0\nv 0 1 0\nusemtl blue\nf 1 2 3\n";
    let m = load(obj, Some(mtl), &[], &mut vec![], -1);
    assert_eq!(m.tris[0].color, 0x9c9c9c);
    assert_eq!(m.tris[0].tex, -1);
}

#[test]
fn only_the_last_material_takes_the_fallback() {
    let mtl = "newmtl first\nKd 1 0 0\nnewmtl second\nKd 0 1 0\n";
    let obj = "v 0 0 0\nv 1 0 0\nv 0 1 0\nusemtl first\nf 1 2 3\nusemtl second\nf 1 2 3\n";
    let m = load(obj, Some(mtl), &[], &mut vec![], 5);
    assert_eq!(m.tris[0].tex, -1);
    assert_eq!(m.tris[1].tex, 5);
    assert_eq!(m.tris[1].color, 0x00ff00);
}

#[test]
fn redefined_material_replaces_earlier() {
    let mtl = "newmtl m\nKd 1 0 0\nnewmtl m\nKd 0 0 1\n";
    let obj = "v 0 0 0\nv 1 0 0\nv 0 1 0\nusemtl m\nf 1 2 3\n";
    let m = load(obj, Some(mtl), &[], &mut vec![], -1);
    assert_eq!(m.tris[0].color, 0x0000ff);
}

#[test]
fn corners_read_vertex_and_texture_fields() {
    let lines = scan_obj("  f 3//7 x/2 4/y 5/  \r\n");
    match &lines[0] {
        ObjLine::Face(cs) => assert_eq!(cs, &vec![(3, None), (0, Some(2)), (4, None), (5, None)]),
        _ => panic!("not a face"),
    }
}

#[test]
fn line_kinds_follow_keywords() {
    let lines = scan_obj("v 1 2 3\nvt 0.5 0.5\nvn 0 0 1\nusemtl  stone \n# comment\n\nf 1 2 3");
    assert_eq!(lines.len(), 7);
    assert!(matches!(&lines[0], ObjLine::Position(w) if w.len() == 3));
    assert!(matches!(&lines[1], ObjLine::TexCoord(w) if w.len() == 2));
    assert!(matches!(&lines[2], ObjLine::Other));
    assert!(matches!(&lines[3], ObjLine::UseMtl(n) if text(n) == "stone"));
    assert!(matches!(&lines[4], ObjLine::Other));
    assert!(matches!(&lines[5], ObjLine::Other));
    assert!(matches!(&lines[6], ObjLine::Face(c) if c.len() == 3));
}

#[test]
fn index_outside_the_model_is_refused() {
    assert!(!obj_indices_valid(&scan_obj("v 0 0 0\nf 1 2 3\n")));
    assert!(!obj_indices_valid(&scan_obj("v 0 0 0\nv 0 0 0\nv 0 0 0\nf 0 1 2\n")));
    assert!(!obj_indices_valid(&scan_obj("v 0 0 0\nv 0 0 0\nv 0 0 0\nf 1/1 2 3\n")));
    assert!(!obj_indices_valid(&scan_obj("v 0 0 0\nv 0 0 0\nv 0 0 0\nf -4 1 2\n")));
    assert!(!obj_indices_valid(&scan_obj("v 0 0 0\nv 0 0 0\nf 1 2 9\n")));
    assert!(!obj_indices_valid(&scan_obj("v 0 0 0\nv 0 0 0\nv 0 0 0\nvt 0 0\nf 1/-2 2 3\n")));
    assert!(obj_indices_valid(&scan_obj("v 0 0 0\nv 0 0 0\nv 0 0 0\nvt 0 0\nf 1/-1 2/x 3\n")));
    assert!(obj_indices_valid(&scan_obj("v 0 0 0\nf 1 9\n")), "short faces are not checked");
}

#[test]
fn find_texture_appends_named_image() {
    let img = Texture { w: 1, h: 1, data: vec![1, 2, 3, 4] };
    let images = vec![(String::from("a.png"), img.clone())];
    let mut textures = vec![Texture { w: 1, h: 1, data: vec![9; 4] }];
    assert_eq!(find_texture("a.png", &images, &mut textures), 1);
    assert_eq!(textures.len(), 2);
    assert_eq!(textures[1].data, vec![1, 2, 3, 4]);
    assert_eq!(find_texture("b.png", &images, &mut textures), -1);
    assert_eq!(textures.len(), 2);
}

#[test]
fn library_and_image_names() {
    let lib = material_library("# x\n  mtllib a.mtl\nmtllib  spider.mtl  \nmtllib other.mtl\n").unwrap();
    assert_eq!(text(&lib), "spider.mtl");
    assert!(material_library("v 0 0 0\n").is_none());
    let f: Vec<char> = ".\\wal67ar_small.jpg".chars().collect();
    assert_eq!(text(&image_file(&f)), "wal67ar_small.jpg");
    let g: Vec<char> = "tex.png".chars().collect();
    assert_eq!(text(&image_file(&g)), "tex.png");
}
