//! Asset types and the OBJ + MTL readers.
//!
//! Reading a model goes in three steps. `scan_mtl` and `scan_obj` sort the
//! lines of the two texts; `build_materials` runs the material definitions
//! (and appends the images they name to the shared texture list);
//! `assemble_mesh` resolves face corners and fan-triangulates. The decimal
//! coordinates and colours stay as words: the caller converts them.

use vstd::prelude::*;
use crate::text::{
    chars_eq, chars_of, lemma_split_on_nonempty, lines_of, parse_i32, parse_i32_chars,
    split_chars, split_on, strip_prefix, strip_prefix_chars, text_lines, trim, trim_chars, views,
    words, words_of,
};

verus! {

/// RGBA image bytes, row 0 = image top.
#[derive(Clone, Debug)]
pub struct Texture {
    pub w: u32,
    pub h: u32,
    pub data: Vec<u8>,
}

pub struct TextureView {
    pub w: u32,
    pub h: u32,
    pub data: Seq<u8>,
}

impl View for Texture {
    type V = TextureView;

    open spec fn view(&self) -> TextureView {
        TextureView { w: self.w, h: self.h, data: self.data@ }
    }
}

impl Texture {
    /// A copy of this texture.
    pub fn duplicate(&self) -> (r: Texture)
        ensures
            r@ == self@,
    {
        let mut data: Vec<u8> = Vec::new();
        let n = self.data.len();
        for k in 0..n
            invariant
                n == self.data@.len(),
                data@ == self.data@.take(k as int),
        {
            data.push(self.data[k]);
            assert(data@ =~= self.data@.take(k + 1));
        }
        assert(self.data@.take(n as int) =~= self.data@);
        Texture { w: self.w, h: self.h, data }
    }
}

pub open spec fn texture_views(s: Seq<Texture>) -> Seq<TextureView> {
    s.map_values(|t: Texture| t@)
}

/// Raw assets for one downloaded model, decoded by the frontend.
#[derive(Clone, Debug)]
pub struct ModelAssets {
    pub obj_text: String,
    pub mtl_text: Option<String>,
    /// (raw `map_Kd` file name, decoded image)
    pub images: Vec<(String, Texture)>,
    pub fallback: i32,
}

/// The first image at or after `j` whose name is `file`.
pub open spec fn image_index_from(images: Seq<(String, Texture)>, file: Seq<char>, j: int) -> Option<
    int,
>
    decreases images.len() - j,
{
    if j < 0 || j >= images.len() {
        None
    } else if images[j].0@ == file {
        Some(j)
    } else {
        image_index_from(images, file, j + 1)
    }
}

/// The first image named `file`.
pub open spec fn image_index(images: Seq<(String, Texture)>, file: Seq<char>) -> Option<int> {
    image_index_from(images, file, 0)
}

pub proof fn lemma_image_index_bounds(images: Seq<(String, Texture)>, file: Seq<char>, j: int)
    ensures
        image_index_from(images, file, j) matches Some(k) ==> j <= k < images.len()
            && images[k].0@ == file,
    decreases images.len() - j,
{
    if 0 <= j < images.len() && images[j].0@ != file {
        lemma_image_index_bounds(images, file, j + 1);
    }
}

/// What `find_texture` leaves in the texture list and returns: the first
/// image named `file` is appended and its new index returned; with no such
/// image the list stays and the result is -1.
pub open spec fn found_texture(
    images: Seq<(String, Texture)>,
    file: Seq<char>,
    textures: Seq<TextureView>,
) -> (Seq<TextureView>, i32) {
    match image_index(images, file) {
        Some(j) => (textures.push(images[j].1@), textures.len() as i32),
        None => (textures, -1i32),
    }
}

/// Finds the image named `file` (a raw `map_Kd` value); appends it to the
/// shared `textures` and returns its index there, or -1 when no image has
/// that name.
pub fn find_texture(file: &str, images: &[(String, Texture)], textures: &mut Vec<Texture>) -> (r:
    i32)
    ensures
        (texture_views(final(textures)@), r) == found_texture(
            images@,
            file@,
            texture_views(old(textures)@),
        ),
{
    let f = chars_of(file);
    find_texture_chars(&f, images, textures)
}

fn find_texture_chars(file: &Vec<char>, images: &[(String, Texture)], textures: &mut Vec<Texture>) -> (r:
    i32)
    ensures
        (texture_views(final(textures)@), r) == found_texture(
            images@,
            file@,
            texture_views(old(textures)@),
        ),
{
    let n = images.len();
    for j in 0..n
        invariant
            n == images@.len(),
            image_index(images@, file@) == image_index_from(images@, file@, j as int),
            textures@ == old(textures)@,
    {
        let name = chars_of(images[j].0.as_str());
        if chars_eq(&name, file) {
            let t = images[j].1.duplicate();
            let ghost before = textures@;
            textures.push(t);
            assert(texture_views(textures@) =~= texture_views(before).push(images@[j as int].1@));
            return (textures.len() - 1) as i32;
        }
    }
    assert(image_index_from(images@, file@, n as int) is None);
    -1
}

// ---------------------------------------------------------------- MTL text

/// One line of an MTL text, by its leading keyword.
pub enum MtlLine {
    /// `newmtl NAME`
    NewMtl(Vec<char>),
    /// `map_Kd FILE`
    MapKd(Vec<char>),
    /// `Kd R G B`: the words after the keyword
    Kd(Vec<Vec<char>>),
    Other,
}

pub enum MtlLineView {
    NewMtl(Seq<char>),
    MapKd(Seq<char>),
    Kd(Seq<Seq<char>>),
    Other,
}

impl View for MtlLine {
    type V = MtlLineView;

    open spec fn view(&self) -> MtlLineView {
        match self {
            MtlLine::NewMtl(n) => MtlLineView::NewMtl(n@),
            MtlLine::MapKd(f) => MtlLineView::MapKd(f@),
            MtlLine::Kd(w) => MtlLineView::Kd(views(w@)),
            MtlLine::Other => MtlLineView::Other,
        }
    }
}

pub open spec fn mtl_views(s: Seq<MtlLine>) -> Seq<MtlLineView> {
    s.map_values(|l: MtlLine| l@)
}

pub open spec fn newmtl_tag() -> Seq<char> {
    seq!['n', 'e', 'w', 'm', 't', 'l', ' ']
}

pub open spec fn map_kd_tag() -> Seq<char> {
    seq!['m', 'a', 'p', '_', 'K', 'd', ' ']
}

pub open spec fn kd_tag() -> Seq<char> {
    seq!['K', 'd', ' ']
}

/// How one MTL line reads: the line is trimmed, then its keyword decides.
pub open spec fn classify_mtl(line: Seq<char>) -> MtlLineView {
    let s = trim(line);
    match strip_prefix(s, newmtl_tag()) {
        Some(rest) => MtlLineView::NewMtl(trim(rest)),
        None => match strip_prefix(s, map_kd_tag()) {
            Some(rest) => MtlLineView::MapKd(trim(rest)),
            None => match strip_prefix(s, kd_tag()) {
                Some(rest) => MtlLineView::Kd(words(rest)),
                None => MtlLineView::Other,
            },
        },
    }
}

fn classify_mtl_line(line: &Vec<char>) -> (r: MtlLine)
    ensures
        r@ == classify_mtl(line@),
{
    let s = trim_chars(line);
    let newmtl: [char; 7] = ['n', 'e', 'w', 'm', 't', 'l', ' '];
    let map_kd: [char; 7] = ['m', 'a', 'p', '_', 'K', 'd', ' '];
    let kd: [char; 3] = ['K', 'd', ' '];
    assert(newmtl@ =~= newmtl_tag());
    assert(map_kd@ =~= map_kd_tag());
    assert(kd@ =~= kd_tag());
    if let Some(rest) = strip_prefix_chars(&s, &newmtl) {
        MtlLine::NewMtl(trim_chars(&rest))
    } else if let Some(rest) = strip_prefix_chars(&s, &map_kd) {
        MtlLine::MapKd(trim_chars(&rest))
    } else if let Some(rest) = strip_prefix_chars(&s, &kd) {
        MtlLine::Kd(words_of(&rest))
    } else {
        MtlLine::Other
    }
}

/// Sorts the lines of an MTL text.
pub fn scan_mtl(text: &str) -> (res: Vec<MtlLine>)
    ensures
        mtl_views(res@) == text_lines(text@).map_values(|l: Seq<char>| classify_mtl(l)),
{
    let cs = chars_of(text);
    let ls = lines_of(&cs);
    let n = ls.len();
    let mut out: Vec<MtlLine> = Vec::new();
    for i in 0..n
        invariant
            n == ls@.len(),
            views(ls@) == text_lines(text@),
            mtl_views(out@) =~= views(ls@).take(i as int).map_values(
                |l: Seq<char>| classify_mtl(l),
            ),
    {
        let r = classify_mtl_line(&ls[i]);
        let ghost before = mtl_views(out@);
        out.push(r);
        assert(mtl_views(out@) =~= before.push(classify_mtl(ls@[i as int]@)));
        assert(views(ls@).take(i + 1) =~= views(ls@).take(i as int).push(ls@[i as int]@));
    }
    assert(views(ls@).take(n as int) =~= views(ls@));
    out
}

// ------------------------------------------------------------ materials

/// The colour of a material without `Kd`, and of faces without a material.
pub const DEFAULT_COLOR: u32 = 0x9c9c9c;

/// A material: texture index (-1 = flat colour) and packed 0xRRGGBB colour.
#[derive(Clone, Copy, Debug, PartialEq, Eq, Structural)]
pub struct Material {
    pub tex: i32,
    pub color: u32,
}

/// The material of faces that name none (or an unknown one).
pub open spec fn default_material() -> Material {
    Material { tex: -1i32, color: DEFAULT_COLOR }
}

/// The value last stored under `name` in a log of insertions, as a map
/// that stores each insertion in turn holds it.
pub open spec fn lookup(log: Seq<(Seq<char>, Material)>, name: Seq<char>) -> Option<Material>
    decreases log.len(),
{
    if log.len() == 0 {
        None
    } else if log.last().0 == name {
        Some(log.last().1)
    } else {
        lookup(log.drop_last(), name)
    }
}

/// Materials by name. Storing a name again replaces its material.
pub struct MaterialTable {
    entries: Vec<(Vec<char>, Material)>,
}

pub open spec fn entry_views(s: Seq<(Vec<char>, Material)>) -> Seq<(Seq<char>, Material)> {
    s.map_values(|e: (Vec<char>, Material)| (e.0@, e.1))
}

impl View for MaterialTable {
    type V = Seq<(Seq<char>, Material)>;

    /// The insertions made, in order.
    closed spec fn view(&self) -> Seq<(Seq<char>, Material)> {
        entry_views(self.entries@)
    }
}

impl MaterialTable {
    /// A table with no material.
    pub fn new() -> (t: MaterialTable)
        ensures
            t@ == Seq::<(Seq<char>, Material)>::empty(),
    {
        let t = MaterialTable { entries: Vec::new() };
        assert(t@ =~= Seq::<(Seq<char>, Material)>::empty());
        t
    }

    /// Stores `m` under `name`.
    pub fn insert(&mut self, name: Vec<char>, m: Material)
        ensures
            final(self)@ == old(self)@.push((name@, m)),
    {
        let ghost before = self@;
        let ghost nv = name@;
        self.entries.push((name, m));
        assert(self@ =~= before.push((nv, m)));
    }

    /// The material stored last under `name`.
    pub fn get(&self, name: &Vec<char>) -> (r: Option<Material>)
        ensures
            r == lookup(self@, name@),
    {
        let mut i = self.entries.len();
        assert(self@.take(i as int) =~= self@);
        while i > 0
            invariant
                i <= self.entries@.len(),
                lookup(self@, name@) == lookup(self@.take(i as int), name@),
            decreases i,
        {
            let ghost pre = self@.take(i as int);
            assert(pre.last() == self@[i - 1]);
            assert(pre.drop_last() =~= self@.take(i - 1));
            if chars_eq(&self.entries[i - 1].0, name) {
                return Some(self.entries[i - 1].1);
            }
            i = i - 1;
        }
        None
    }
}

/// The state of the material reader after some lines: the material being
/// defined (name, texture, colour), the insertions made so far, and the
/// texture list.
pub struct MtlState {
    pub name: Seq<char>,
    pub tex: i32,
    pub color: u32,
    pub log: Seq<(Seq<char>, Material)>,
    pub textures: Seq<TextureView>,
}

/// The material reader after `lines`: `newmtl` stores the material being
/// defined (if it has a name) and starts a new one with texture -1 and the
/// default colour; `map_Kd` looks the file up with `find_texture`; `Kd`
/// takes the colour that `kd` gives for that line, if any.
pub open spec fn mtl_state(
    lines: Seq<MtlLineView>,
    kd: Seq<Option<u32>>,
    images: Seq<(String, Texture)>,
    textures: Seq<TextureView>,
) -> MtlState
    decreases lines.len(),
{
    if lines.len() == 0 {
        MtlState {
            name: Seq::empty(),
            tex: -1i32,
            color: DEFAULT_COLOR,
            log: Seq::empty(),
            textures,
        }
    } else {
        let a = mtl_state(lines.drop_last(), kd, images, textures);
        match lines.last() {
            MtlLineView::NewMtl(n) => MtlState {
                name: n,
                tex: -1i32,
                color: DEFAULT_COLOR,
                log: if a.name.len() > 0 {
                    a.log.push((a.name, Material { tex: a.tex, color: a.color }))
                } else {
                    a.log
                },
                textures: a.textures,
            },
            MtlLineView::MapKd(f) => {
                let (t, idx) = found_texture(images, f, a.textures);
                MtlState { tex: idx, textures: t, ..a }
            },
            MtlLineView::Kd(_) => match kd[lines.len() - 1] {
                Some(c) => MtlState { color: c, ..a },
                None => a,
            },
            MtlLineView::Other => a,
        }
    }
}

/// The materials an MTL text defines: the last material is stored at the
/// end, and it alone takes `fallback` when it has no texture; earlier
/// materials keep -1.
pub open spec fn mtl_table(
    lines: Seq<MtlLineView>,
    kd: Seq<Option<u32>>,
    images: Seq<(String, Texture)>,
    textures: Seq<TextureView>,
    fallback: i32,
) -> Seq<(Seq<char>, Material)> {
    let a = mtl_state(lines, kd, images, textures);
    if a.name.len() > 0 {
        a.log.push(
            (
                a.name,
                Material {
                    tex: if a.tex >= 0 {
                        a.tex
                    } else {
                        fallback
                    },
                    color: a.color,
                },
            ),
        )
    } else {
        a.log
    }
}

/// Runs the material definitions of a scanned MTL text. `kd[i]` is the
/// colour that line `i` sets when it is a `Kd` line (packed 0xRRGGBB), or
/// `None` when its words are not three numbers. Images named by `map_Kd`
/// are appended to `textures`.
pub fn build_materials(
    lines: &Vec<MtlLine>,
    kd: &Vec<Option<u32>>,
    images: &[(String, Texture)],
    textures: &mut Vec<Texture>,
    fallback: i32,
) -> (table: MaterialTable)
    requires
        kd@.len() == lines@.len(),
    ensures
        table@ == mtl_table(
            mtl_views(lines@),
            kd@,
            images@,
            texture_views(old(textures)@),
            fallback,
        ),
        texture_views(final(textures)@) == mtl_state(
            mtl_views(lines@),
            kd@,
            images@,
            texture_views(old(textures)@),
        ).textures,
{
    let ghost lv = mtl_views(lines@);
    let ghost t0 = texture_views(textures@);
    let mut name: Vec<char> = Vec::new();
    let mut tex: i32 = -1;
    let mut color: u32 = DEFAULT_COLOR;
    let mut table = MaterialTable::new();
    let n = lines.len();
    for i in 0..n
        invariant
            n == lines@.len(),
            kd@.len() == n,
            lv == mtl_views(lines@),
            ({
                let a = mtl_state(lv.take(i as int), kd@, images@, t0);
                &&& a.name == name@
                &&& a.tex == tex
                &&& a.color == color
                &&& a.log == table@
                &&& a.textures == texture_views(textures@)
            }),
    {
        let ghost pre = lv.take(i as int);
        proof {
            assert(lv.take(i + 1).drop_last() =~= pre);
            assert(lv.take(i + 1).last() == lines@[i as int]@);
        }
        match &lines[i] {
            MtlLine::NewMtl(nm) => {
                if name.len() > 0 {
                    table.insert(name, Material { tex, color });
                }
                name = nm.clone();
                tex = -1;
                color = DEFAULT_COLOR;
            },
            MtlLine::MapKd(f) => {
                tex = find_texture_chars(f, images, textures);
            },
            MtlLine::Kd(_) => {
                if let Some(c) = kd[i] {
                    color = c;
                }
            },
            MtlLine::Other => {},
        }
    }
    assert(lv.take(n as int) =~= lv);
    if name.len() > 0 {
        let t = if tex >= 0 {
            tex
        } else {
            fallback
        };
        table.insert(name, Material { tex: t, color });
    }
    table
}

// ------------------------------------------------------------ OBJ text

/// One line of an OBJ text, by its leading keyword.
pub enum ObjLine {
    /// `v X Y Z`: the words after the keyword
    Position(Vec<Vec<char>>),
    /// `vt U V`: the words after the keyword
    TexCoord(Vec<Vec<char>>),
    /// `usemtl NAME`
    UseMtl(Vec<char>),
    /// `f ...`: one (vertex, texture) index pair per corner; a missing or
    /// unreadable vertex index reads 0, a missing or unreadable texture
    /// index reads `None`
    Face(Vec<(i32, Option<i32>)>),
    Other,
}

pub enum ObjLineView {
    Position(Seq<Seq<char>>),
    TexCoord(Seq<Seq<char>>),
    UseMtl(Seq<char>),
    Face(Seq<(i32, Option<i32>)>),
    Other,
}

impl View for ObjLine {
    type V = ObjLineView;

    open spec fn view(&self) -> ObjLineView {
        match self {
            ObjLine::Position(w) => ObjLineView::Position(views(w@)),
            ObjLine::TexCoord(w) => ObjLineView::TexCoord(views(w@)),
            ObjLine::UseMtl(n) => ObjLineView::UseMtl(n@),
            ObjLine::Face(c) => ObjLineView::Face(c@),
            ObjLine::Other => ObjLineView::Other,
        }
    }
}

pub open spec fn obj_views(s: Seq<ObjLine>) -> Seq<ObjLineView> {
    s.map_values(|l: ObjLine| l@)
}

pub open spec fn v_tag() -> Seq<char> {
    seq!['v', ' ']
}

pub open spec fn vt_tag() -> Seq<char> {
    seq!['v', 't', ' ']
}

pub open spec fn usemtl_tag() -> Seq<char> {
    seq!['u', 's', 'e', 'm', 't', 'l', ' ']
}

pub open spec fn f_tag() -> Seq<char> {
    seq!['f', ' ']
}

/// One face corner `V`, `V/T` or `V/T/N`: the vertex index (0 when it does
/// not read as an integer) and the texture index (`None` when it is missing,
/// empty or does not read as an integer).
pub open spec fn corner_of(part: Seq<char>) -> (i32, Option<i32>) {
    let pieces = split_on(part, '/');
    let vi = match parse_i32(pieces[0]) {
        Some(v) => v,
        None => 0i32,
    };
    let ti = if pieces.len() > 1 && pieces[1].len() > 0 {
        parse_i32(pieces[1])
    } else {
        None
    };
    (vi, ti)
}

/// How one OBJ line reads: the line is trimmed, then its keyword decides.
pub open spec fn classify_obj(line: Seq<char>) -> ObjLineView {
    let s = trim(line);
    match strip_prefix(s, v_tag()) {
        Some(rest) => ObjLineView::Position(words(rest)),
        None => match strip_prefix(s, vt_tag()) {
            Some(rest) => ObjLineView::TexCoord(words(rest)),
            None => match strip_prefix(s, usemtl_tag()) {
                Some(rest) => ObjLineView::UseMtl(trim(rest)),
                None => match strip_prefix(s, f_tag()) {
                    Some(rest) => ObjLineView::Face(
                        words(rest).map_values(|p: Seq<char>| corner_of(p)),
                    ),
                    None => ObjLineView::Other,
                },
            },
        },
    }
}

fn corner_chars(part: &Vec<char>) -> (r: (i32, Option<i32>))
    ensures
        r == corner_of(part@),
{
    let pieces = split_chars(part, '/');
    proof {
        lemma_split_on_nonempty(part@, '/');
    }
    assert(pieces@[0]@ == split_on(part@, '/')[0]);
    let vi = match parse_i32_chars(&pieces[0]) {
        Some(v) => v,
        None => 0,
    };
    let ti = if pieces.len() > 1 && pieces[1].len() > 0 {
        assert(pieces@[1]@ == split_on(part@, '/')[1]);
        parse_i32_chars(&pieces[1])
    } else {
        proof {
            if pieces@.len() > 1 {
                assert(pieces@[1]@ == split_on(part@, '/')[1]);
            }
        }
        None
    };
    (vi, ti)
}

fn face_corners(rest: &Vec<char>) -> (r: Vec<(i32, Option<i32>)>)
    ensures
        r@ == words(rest@).map_values(|p: Seq<char>| corner_of(p)),
{
    let parts = words_of(rest);
    let n = parts.len();
    let mut out: Vec<(i32, Option<i32>)> = Vec::new();
    for i in 0..n
        invariant
            n == parts@.len(),
            views(parts@) == words(rest@),
            out@ =~= views(parts@).take(i as int).map_values(|p: Seq<char>| corner_of(p)),
    {
        let c = corner_chars(&parts[i]);
        out.push(c);
        assert(views(parts@).take(i + 1) =~= views(parts@).take(i as int).push(parts@[i as int]@));
    }
    assert(views(parts@).take(n as int) =~= views(parts@));
    out
}

fn classify_obj_line(line: &Vec<char>) -> (r: ObjLine)
    ensures
        r@ == classify_obj(line@),
{
    let s = trim_chars(line);
    let v: [char; 2] = ['v', ' '];
    let vt: [char; 3] = ['v', 't', ' '];
    let usemtl: [char; 7] = ['u', 's', 'e', 'm', 't', 'l', ' '];
    let f: [char; 2] = ['f', ' '];
    assert(v@ =~= v_tag());
    assert(vt@ =~= vt_tag());
    assert(usemtl@ =~= usemtl_tag());
    assert(f@ =~= f_tag());
    if let Some(rest) = strip_prefix_chars(&s, &v) {
        ObjLine::Position(words_of(&rest))
    } else if let Some(rest) = strip_prefix_chars(&s, &vt) {
        ObjLine::TexCoord(words_of(&rest))
    } else if let Some(rest) = strip_prefix_chars(&s, &usemtl) {
        ObjLine::UseMtl(trim_chars(&rest))
    } else if let Some(rest) = strip_prefix_chars(&s, &f) {
        ObjLine::Face(face_corners(&rest))
    } else {
        ObjLine::Other
    }
}

/// Sorts the lines of an OBJ text.
pub fn scan_obj(text: &str) -> (res: Vec<ObjLine>)
    ensures
        obj_views(res@) == text_lines(text@).map_values(|l: Seq<char>| classify_obj(l)),
{
    let cs = chars_of(text);
    let ls = lines_of(&cs);
    let n = ls.len();
    let mut out: Vec<ObjLine> = Vec::new();
    for i in 0..n
        invariant
            n == ls@.len(),
            views(ls@) == text_lines(text@),
            obj_views(out@) =~= views(ls@).take(i as int).map_values(
                |l: Seq<char>| classify_obj(l),
            ),
    {
        let r = classify_obj_line(&ls[i]);
        let ghost before = obj_views(out@);
        out.push(r);
        assert(obj_views(out@) =~= before.push(classify_obj(ls@[i as int]@)));
        assert(views(ls@).take(i + 1) =~= views(ls@).take(i as int).push(ls@[i as int]@));
    }
    assert(views(ls@).take(n as int) =~= views(ls@));
    out
}

// ------------------------------------------------------------ asset names

pub open spec fn mtllib_tag() -> Seq<char> {
    seq!['m', 't', 'l', 'l', 'i', 'b', ' ']
}

/// The material library named by the first of `lines` that starts with
/// `mtllib ` (untrimmed), its rest trimmed.
pub open spec fn library_name(lines: Seq<Seq<char>>) -> Option<Seq<char>>
    decreases lines.len(),
{
    if lines.len() == 0 {
        None
    } else {
        match strip_prefix(lines[0], mtllib_tag()) {
            Some(rest) => Some(trim(rest)),
            None => library_name(lines.drop_first()),
        }
    }
}

/// The file name of the material library that an OBJ text names.
pub fn material_library(obj_text: &str) -> (r: Option<Vec<char>>)
    ensures
        match r {
            Some(n) => library_name(text_lines(obj_text@)) == Some(n@),
            None => library_name(text_lines(obj_text@)) is None,
        },
{
    let cs = chars_of(obj_text);
    let ls = lines_of(&cs);
    let tag: [char; 7] = ['m', 't', 'l', 'l', 'i', 'b', ' '];
    assert(tag@ =~= mtllib_tag());
    let n = ls.len();
    assert(views(ls@).skip(0) =~= views(ls@));
    for i in 0..n
        invariant
            n == ls@.len(),
            views(ls@) == text_lines(obj_text@),
            tag@ == mtllib_tag(),
            library_name(views(ls@)) == library_name(views(ls@).skip(i as int)),
    {
        assert(views(ls@).skip(i as int)[0] == ls@[i as int]@);
        assert(views(ls@).skip(i as int).drop_first() =~= views(ls@).skip(i + 1));
        if let Some(rest) = strip_prefix_chars(&ls[i], &tag) {
            return Some(trim_chars(&rest));
        }
    }
    None
}

pub open spec fn dot_backslash() -> Seq<char> {
    seq!['.', '\\']
}

/// The file an image name refers to on disk: a leading `.\` (as Windows
/// tools write it) is dropped.
pub open spec fn image_path(file: Seq<char>) -> Seq<char> {
    match strip_prefix(file, dot_backslash()) {
        Some(rest) => rest,
        None => file,
    }
}

/// The file an image name refers to on disk.
pub fn image_file(file: &Vec<char>) -> (r: Vec<char>)
    ensures
        r@ == image_path(file@),
{
    let tag: [char; 2] = ['.', '\\'];
    assert(tag@ =~= dot_backslash());
    match strip_prefix_chars(file, &tag) {
        Some(rest) => rest,
        None => file.clone(),
    }
}

// ------------------------------------------------------------ assembly

/// The number of `v` lines.
pub open spec fn count_positions(lines: Seq<ObjLineView>) -> nat
    decreases lines.len(),
{
    if lines.len() == 0 {
        0
    } else {
        count_positions(lines.drop_last()) + if lines.last() is Position {
            1nat
        } else {
            0nat
        }
    }
}

/// The number of `vt` lines.
pub open spec fn count_texcoords(lines: Seq<ObjLineView>) -> nat
    decreases lines.len(),
{
    if lines.len() == 0 {
        0
    } else {
        count_texcoords(lines.drop_last()) + if lines.last() is TexCoord {
            1nat
        } else {
            0nat
        }
    }
}

/// A corner names a vertex that exists among `nv` and, when it has a
/// texture index, a texture coordinate that exists among `nt`: a negative
/// index counts back from the last one, a positive one is 1-based.
pub open spec fn corner_in_range(c: (i32, Option<i32>), nv: int, nt: int) -> bool {
    &&& if c.0 < 0 {
        nv + c.0 >= 0
    } else {
        1 <= c.0 <= nv && (c.0 - 1) * 3 <= i32::MAX
    }
    &&& match c.1 {
        None => true,
        Some(t) => if t < 0 {
            nt + t >= 0
        } else {
            1 <= t <= nt && (t - 1) * 2 <= i32::MAX
        },
    }
}

/// A line that is a face of three or more corners has all of them in range.
pub open spec fn face_in_range(l: ObjLineView, nv: int, nt: int) -> bool {
    match l {
        ObjLineView::Face(cs) => cs.len() < 3 || forall|j: int|
            0 <= j < cs.len() ==> corner_in_range(#[trigger] cs[j], nv, nt),
        _ => true,
    }
}

/// Every face that is kept refers to vertices and texture coordinates that
/// the text defines.
pub open spec fn faces_in_range(lines: Seq<ObjLineView>) -> bool {
    forall|i: int|
        0 <= i < lines.len() ==> face_in_range(
            #[trigger] lines[i],
            count_positions(lines) as int,
            count_texcoords(lines) as int,
        )
}

/// A resolved corner: the index of its `v` line among the `v` lines, and
/// of its `vt` line among the `vt` lines when it has one.
#[derive(Clone, Copy, Debug, PartialEq, Eq, Structural)]
pub struct Corner {
    pub pos: usize,
    pub uv: Option<usize>,
}

/// One triangle of a model, by corners, with its material.
#[derive(Clone, Copy, Debug, PartialEq, Eq, Structural)]
pub struct IndexedTri {
    pub a: Corner,
    pub b: Corner,
    pub c: Corner,
    /// Index into the shared texture list; -1 = flat colour.
    pub tex: i32,
    /// Packed 0xRRGGBB.
    pub color: u32,
}

/// The corner that an index pair names among `nv` vertices and `nt`
/// texture coordinates.
pub open spec fn resolve(c: (i32, Option<i32>), nv: int, nt: int) -> Corner {
    Corner {
        pos: (if c.0 < 0 {
            nv + c.0
        } else {
            c.0 - 1
        }) as usize,
        uv: match c.1 {
            Some(t) => Some(
                (if t < 0 {
                    nt + t
                } else {
                    t - 1
                }) as usize,
            ),
            None => None,
        },
    }
}

/// Fan triangulation of one face: (0, i, i + 1) for each i in 1..n-1.
pub open spec fn fan(cs: Seq<(i32, Option<i32>)>, m: Material, nv: int, nt: int) -> Seq<IndexedTri> {
    Seq::new(
        (cs.len() - 2) as nat,
        |i: int|
            IndexedTri {
                a: resolve(cs[0], nv, nt),
                b: resolve(cs[i + 1], nv, nt),
                c: resolve(cs[i + 2], nv, nt),
                tex: m.tex,
                color: m.color,
            },
    )
}

/// The material name that the faces after `lines` take: that of the last
/// `usemtl`, which governs every face up to the next one.
pub open spec fn pending_material(lines: Seq<ObjLineView>) -> Option<Seq<char>>
    decreases lines.len(),
{
    if lines.len() == 0 {
        None
    } else {
        match lines.last() {
            ObjLineView::UseMtl(n) => Some(n),
            _ => pending_material(lines.drop_last()),
        }
    }
}

/// The material a face takes: the named one, or the default when there is
/// no name or no material of that name.
pub open spec fn material_named(log: Seq<(Seq<char>, Material)>, name: Option<Seq<char>>) -> Material {
    match name {
        Some(n) => match lookup(log, n) {
            Some(m) => m,
            None => default_material(),
        },
        None => default_material(),
    }
}

/// The triangles of a scanned OBJ text with `nv` vertices and `nt` texture
/// coordinates: each face of three or more corners, in order,
/// fan-triangulated; shorter faces are dropped.
pub open spec fn obj_tris(
    lines: Seq<ObjLineView>,
    log: Seq<(Seq<char>, Material)>,
    nv: int,
    nt: int,
) -> Seq<
    IndexedTri,
>
    decreases lines.len(),
{
    if lines.len() == 0 {
        Seq::empty()
    } else {
        let prev = obj_tris(lines.drop_last(), log, nv, nt);
        match lines.last() {
            ObjLineView::Face(cs) => if cs.len() >= 3 {
                prev + fan(cs, material_named(log, pending_material(lines.drop_last())), nv, nt)
            } else {
                prev
            },
            _ => prev,
        }
    }
}

fn count_lines(lines: &Vec<ObjLine>) -> (r: (usize, usize))
    ensures
        r.0 == count_positions(obj_views(lines@)),
        r.1 == count_texcoords(obj_views(lines@)),
{
    let ghost lv = obj_views(lines@);
    let mut nv: usize = 0;
    let mut nt: usize = 0;
    let n = lines.len();
    for i in 0..n
        invariant
            n == lines@.len(),
            lv == obj_views(lines@),
            nv == count_positions(lv.take(i as int)),
            nt == count_texcoords(lv.take(i as int)),
            nv <= i,
            nt <= i,
    {
        assert(lv.take(i + 1).drop_last() =~= lv.take(i as int));
        assert(lv.take(i + 1).last() == lines@[i as int]@);
        match &lines[i] {
            ObjLine::Position(_) => {
                nv = nv + 1;
            },
            ObjLine::TexCoord(_) => {
                nt = nt + 1;
            },
            _ => {},
        }
    }
    assert(lv.take(n as int) =~= lv);
    (nv, nt)
}

fn corner_ok(c: (i32, Option<i32>), nv: usize, nt: usize) -> (r: bool)
    ensures
        r == corner_in_range(c, nv as int, nt as int),
{
    let pos_ok = if c.0 < 0 {
        let back = (-(c.0 as i64)) as u64;
        back <= nv as u64
    } else {
        1 <= c.0 && c.0 as u64 <= nv as u64 && c.0 - 1 <= 0x2aaa_aaaa
    };
    let uv_ok = match c.1 {
        None => true,
        Some(t) => if t < 0 {
            let back = (-(t as i64)) as u64;
            back <= nt as u64
        } else {
            1 <= t && t as u64 <= nt as u64 && t - 1 <= 0x3fff_ffff
        },
    };
    pos_ok && uv_ok
}

/// Whether every kept face of a scanned OBJ text refers to vertices and
/// texture coordinates that the text defines.
pub fn obj_indices_valid(lines: &Vec<ObjLine>) -> (r: bool)
    ensures
        r == faces_in_range(obj_views(lines@)),
{
    let ghost lv = obj_views(lines@);
    let (nv, nt) = count_lines(lines);
    let n = lines.len();
    for i in 0..n
        invariant
            n == lines@.len(),
            lv == obj_views(lines@),
            nv == count_positions(lv),
            nt == count_texcoords(lv),
            forall|k: int| 0 <= k < i ==> face_in_range(#[trigger] lv[k], nv as int, nt as int),
    {
        assert(lv[i as int] == lines@[i as int]@);
        if let ObjLine::Face(cs) = &lines[i] {
            assert(lv[i as int] == ObjLineView::Face(cs@));
            if cs.len() >= 3 {
                let m = cs.len();
                #[verifier::loop_isolation(false)]
                for j in 0..m
                    invariant
                        m == cs@.len(),
                        forall|k: int| 0 <= k < j ==> corner_in_range(#[trigger] cs@[k], nv as int, nt as int),
                {
                    if !corner_ok(cs[j], nv, nt) {
                        assert(!corner_in_range(cs@[j as int], nv as int, nt as int));
                        assert(!face_in_range(lv[i as int], nv as int, nt as int));
                        return false;
                    }
                }
                assert(face_in_range(lv[i as int], nv as int, nt as int));
            }
        }
    }
    true
}

fn resolve_corner(c: (i32, Option<i32>), nv: usize, nt: usize) -> (r: Corner)
    requires
        corner_in_range(c, nv as int, nt as int),
    ensures
        r == resolve(c, nv as int, nt as int),
{
    let pos = if c.0 < 0 {
        let back = (-(c.0 as i64)) as usize;
        nv - back
    } else {
        (c.0 - 1) as usize
    };
    let uv = match c.1 {
        Some(t) => if t < 0 {
            let back = (-(t as i64)) as usize;
            Some(nt - back)
        } else {
            Some((t - 1) as usize)
        },
        None => None,
    };
    Corner { pos, uv }
}

/// The triangles of a scanned OBJ text, with materials from `table`.
pub fn assemble_mesh(lines: &Vec<ObjLine>, table: &MaterialTable) -> (tris: Vec<IndexedTri>)
    requires
        faces_in_range(obj_views(lines@)),
    ensures
        tris@ == obj_tris(
            obj_views(lines@),
            table@,
            count_positions(obj_views(lines@)) as int,
            count_texcoords(obj_views(lines@)) as int,
        ),
{
    let ghost lv = obj_views(lines@);
    let (nv, nt) = count_lines(lines);
    let n = lines.len();
    let mut out: Vec<IndexedTri> = Vec::new();
    let mut pending: Option<Vec<char>> = None;
    for i in 0..n
        invariant
            n == lines@.len(),
            lv == obj_views(lines@),
            nv == count_positions(lv),
            nt == count_texcoords(lv),
            faces_in_range(lv),
            out@ == obj_tris(lv.take(i as int), table@, nv as int, nt as int),
            match pending {
                Some(p) => pending_material(lv.take(i as int)) == Some(p@),
                None => pending_material(lv.take(i as int)) is None,
            },
    {
        let ghost pre = lv.take(i as int);
        proof {
            assert(lv.take(i + 1).drop_last() =~= pre);
            assert(lv.take(i + 1).last() == lines@[i as int]@);
            assert(lv[i as int] == lines@[i as int]@);
            assert(face_in_range(lv[i as int], nv as int, nt as int));
        }
        match &lines[i] {
            ObjLine::UseMtl(name) => {
                pending = Some(name.clone());
            },
            ObjLine::Face(cs) => {
                if cs.len() >= 3 {
                    proof {
                        assert(lv[i as int] == ObjLineView::Face(cs@));
                        assert(forall|j: int|
                            0 <= j < cs@.len() ==> corner_in_range(
                                #[trigger] cs@[j],
                                nv as int,
                                nt as int,
                            ));
                    }
                    let mat = match &pending {
                        Some(p) => match table.get(p) {
                            Some(m) => m,
                            None => Material { tex: -1, color: DEFAULT_COLOR },
                        },
                        None => Material { tex: -1, color: DEFAULT_COLOR },
                    };
                    assert(mat == material_named(table@, pending_material(pre)));
                    let m = cs.len();
                    let ghost fanned = fan(cs@, mat, nv as int, nt as int);
                    let ghost base = out@;
                    assert(corner_in_range(cs@[0], nv as int, nt as int));
                    let a = resolve_corner(cs[0], nv, nt);
                    for k in 1..m - 1
                        invariant
                            m == cs@.len(),
                            m >= 3,
                            forall|j: int| 0 <= j < m ==> corner_in_range(#[trigger] cs@[j], nv as int, nt as int),
                            fanned == fan(cs@, mat, nv as int, nt as int),
                            a == resolve(cs@[0], nv as int, nt as int),
                            out@ =~= base + fanned.take(k - 1),
                    {
                        assert(corner_in_range(cs@[k as int], nv as int, nt as int));
                        assert(corner_in_range(cs@[k + 1], nv as int, nt as int));
                        let b = resolve_corner(cs[k], nv, nt);
                        let c = resolve_corner(cs[k + 1], nv, nt);
                        out.push(IndexedTri { a, b, c, tex: mat.tex, color: mat.color });
                        assert(fanned.take(k as int) =~= fanned.take(k - 1).push(fanned[k - 1]));
                    }
                    assert(fanned.take(m - 2) =~= fanned);
                }
            },
            _ => {},
        }
    }
    assert(lv.take(n as int) =~= lv);
    out
}

} // verus!
