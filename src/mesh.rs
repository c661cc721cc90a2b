use vstd::prelude::*;
use vstd::string::StringExecFns;

use core::num::ParseFloatError;
use core::num::ParseIntError;

verus! {

/// `core::num::ParseIntError`, carried through as the error of an index
/// that is no number.
#[verifier::external_type_specification]
#[verifier::external_body]
pub struct ExParseIntError(ParseIntError);

/// `core::num::ParseFloatError`, carried through as the error of a
/// coordinate that is no number.
#[verifier::external_type_specification]
#[verifier::external_body]
pub struct ExParseFloatError(ParseFloatError);

/// `std::io::Error`, carried through as the error of reading a file.
#[verifier::external_type_specification]
#[verifier::external_body]
pub struct ExIoError(std::io::Error);

pub open spec fn is_digit(c: char) -> bool {
    '0' <= c <= '9'
}

/// The number that a string of decimal digits spells.
pub open spec fn digits_value(s: Seq<char>) -> int
    decreases s.len(),
{
    if s.len() == 0 {
        0
    } else {
        digits_value(s.drop_last()) * 10 + (s.last() as int - '0' as int)
    }
}

/// The digits of an unsigned decimal, after its optional leading `+`.
pub open spec fn unsigned_digits(s: Seq<char>) -> Seq<char> {
    if s.len() > 0 && s[0] == '+' {
        s.drop_first()
    } else {
        s
    }
}

/// `s` is an optional `+` and one or more decimal digits whose value fits
/// in a `usize`.
pub open spec fn parses_as_usize(s: Seq<char>) -> bool {
    let d = unsigned_digits(s);
    &&& d.len() > 0
    &&& forall|i: int| 0 <= i < d.len() ==> is_digit(#[trigger] d[i])
    &&& digits_value(d) <= usize::MAX
}

/// Relies on `str::parse::<usize>` (`usize::from_str_radix` in base 10): it
/// accepts an optional `+` followed by one or more ASCII digits whose value
/// fits, and fails on anything else.
#[verifier::external_body]
fn parse_usize(s: &str) -> (r: Result<usize, ParseIntError>)
    ensures
        r is Ok <==> parses_as_usize(s@),
        r matches Ok(n) ==> n == digits_value(unsigned_digits(s@)),
{
    s.parse::<usize>()
}

/// What a face entry holds before its first `/` (the vertex index; texture
/// and normal indices may follow).
pub open spec fn leading_field(s: Seq<char>) -> Seq<char>
    decreases s.len(),
{
    if s.len() == 0 || s[0] == '/' {
        Seq::empty()
    } else {
        seq![s[0]] + leading_field(s.drop_first())
    }
}

fn first_field(s: &str) -> (r: &str)
    ensures
        r@ == leading_field(s@),
{
    let n = s.unicode_len();
    let mut i: usize = 0;
    proof {
        assert(s@.skip(0) =~= s@);
        assert(s@.take(0) + leading_field(s@) =~= leading_field(s@));
    }
    while i < n && s.get_char(i) != '/'
        invariant
            i <= n,
            n == s@.len(),
            s@.take(i as int) + leading_field(s@.skip(i as int)) == leading_field(s@),
        decreases n - i,
    {
        proof {
            let rest = s@.skip(i as int);
            assert(rest.drop_first() =~= s@.skip(i as int + 1));
            assert(s@.take(i as int + 1) =~= s@.take(i as int) + seq![rest[0]]);
            assert(s@.take(i as int) + leading_field(rest) =~= s@.take(i as int + 1)
                + leading_field(s@.skip(i as int + 1)));
        }
        i = i + 1;
    }
    proof {
        assert(leading_field(s@.skip(i as int)) =~= Seq::<char>::empty());
        assert(s@.take(i as int) + Seq::<char>::empty() =~= s@.take(i as int));
    }
    s.substring_char(0, i)
}

/// A face entry names a vertex that its field spells.
pub open spec fn entry_parses(t: Seq<char>) -> bool {
    parses_as_usize(leading_field(t))
}

/// The one-based vertex number that a face entry spells.
pub open spec fn entry_number(t: Seq<char>) -> int {
    digits_value(unsigned_digits(leading_field(t)))
}

/// A face entry names a vertex by a number from 1 up.
pub open spec fn entry_ok(t: Seq<char>) -> bool {
    entry_parses(t) && entry_number(t) >= 1
}

/// A triangle of a mesh, as zero-based indices into its vertex list.
#[derive(Clone, Copy, Debug, PartialEq, Eq, Structural)]
pub struct Face {
    pub i: usize,
    pub j: usize,
    pub k: usize,
}

/// Why a mesh could not be read.
#[allow(non_camel_case_types)]
#[derive(Debug)]
pub enum MeshParseError {
    string(String),
    io(std::io::Error),
    parse_int(ParseIntError),
    parse_float(ParseFloatError),
}

/// The face that the entries after the keyword spell, if all three name a
/// vertex from 1 up.
pub open spec fn spec_face(tokens: Seq<Seq<char>>) -> Option<Face> {
    if tokens.len() >= 4 && entry_ok(tokens[1]) && entry_ok(tokens[2]) && entry_ok(tokens[3]) {
        Some(
            Face {
                i: (entry_number(tokens[1]) - 1) as usize,
                j: (entry_number(tokens[2]) - 1) as usize,
                k: (entry_number(tokens[3]) - 1) as usize,
            },
        )
    } else {
        None
    }
}

/// There are three entries after the keyword and, reading them in turn,
/// the first one that is not a vertex number from 1 up is not a number at
/// all.
pub open spec fn face_number_fails(tokens: Seq<Seq<char>>) -> bool {
    &&& tokens.len() >= 4
    &&& face_entry_fails(tokens)
}

pub open spec fn face_entry_fails(tokens: Seq<Seq<char>>) -> bool {
    ||| !entry_parses(tokens[1])
    ||| entry_ok(tokens[1]) && !entry_parses(tokens[2])
    ||| entry_ok(tokens[1]) && entry_ok(tokens[2]) && !entry_parses(tokens[3])
}

pub open spec fn views(tokens: Seq<&str>) -> Seq<Seq<char>> {
    tokens.map_values(|t: &str| t@)
}

impl Face {
    /// Reads one index from a face entry such as `7`, `7/2` or `7//3`.
    fn entry_index(tok: &str) -> (r: Result<usize, MeshParseError>)
        ensures
            r is Ok <==> entry_ok(tok@),
            r matches Ok(n) ==> n == entry_number(tok@) - 1,
            r matches Err(e) ==> (e is parse_int <==> !entry_parses(tok@)),
            r matches Err(e) ==> e is parse_int || e is string,
    {
        let field = first_field(tok);
        match parse_usize(field) {
            Ok(n) => {
                if n == 0 {
                    Err(MeshParseError::string(String::from_str("face index 0: indices count from 1")))
                } else {
                    Ok(n - 1)
                }
            },
            Err(e) => Err(MeshParseError::parse_int(e)),
        }
    }

    /// Reads the face of a tokenised `f` statement: the part before the
    /// first `/` of each of the three entries after the keyword is a vertex
    /// number counted from 1. Texture and normal indices are not read. Fewer
    /// than three entries, or an entry that names no vertex, is an error, a
    /// `parse_int` one where the entry is no number.
    pub fn from_tokens(tokens: &Vec<&str>, has_normals: bool, has_tex_coords: bool) -> (r: Result<
        Face,
        MeshParseError,
    >)
        ensures
            r is Ok <==> spec_face(views(tokens@)) is Some,
            r matches Ok(f) ==> spec_face(views(tokens@)) == Some(f),
            r matches Err(e) ==> (e is parse_int <==> face_number_fails(views(tokens@))),
            r matches Err(e) ==> e is parse_int || e is string,
    {
        if tokens.len() < 4 {
            return Err(
                MeshParseError::string(String::from_str("a face needs three vertex indices")),
            );
        }
        let ghost v = views(tokens@);
        assert(v[1] == tokens@[1]@ && v[2] == tokens@[2]@ && v[3] == tokens@[3]@);
        let i = match Self::entry_index(tokens[1]) {
            Ok(n) => n,
            Err(e) => return Err(e),
        };
        let j = match Self::entry_index(tokens[2]) {
            Ok(n) => n,
            Err(e) => return Err(e),
        };
        let k = match Self::entry_index(tokens[3]) {
            Ok(n) => n,
            Err(e) => return Err(e),
        };
        Ok(Face { i, j, k })
    }

    /// All three indices name a vertex of a list of `n`.
    pub open spec fn fits(self, n: nat) -> bool {
        self.i < n && self.j < n && self.k < n
    }

    /// The three corners of the face, taken from `verts`.
    pub fn as_tri<V: Copy>(&self, verts: &Vec<V>) -> (r: [V; 3])
        requires
            self.fits(verts.len() as nat),
        ensures
            r@ == seq![verts@[self.i as int], verts@[self.j as int], verts@[self.k as int]],
    {
        let r = [verts[self.i], verts[self.j], verts[self.k]];
        assert(r@ =~= seq![verts@[self.i as int], verts@[self.j as int], verts@[self.k as int]]);
        r
    }

    /// Whether all three indices name a vertex of a list of `n`.
    pub fn check_fits(&self, n: usize) -> (r: bool)
        ensures
            r == self.fits(n as nat),
    {
        self.i < n && self.j < n && self.k < n
    }
}

/// The characters of Unicode's White_Space property.
pub open spec fn is_white_space(c: char) -> bool {
    ||| '\u{9}' <= c <= '\u{d}'
    ||| c == ' '
    ||| c == '\u{85}'
    ||| c == '\u{a0}'
    ||| c == '\u{1680}'
    ||| '\u{2000}' <= c <= '\u{200a}'
    ||| c == '\u{2028}'
    ||| c == '\u{2029}'
    ||| c == '\u{202f}'
    ||| c == '\u{205f}'
    ||| c == '\u{3000}'
}

/// The words of `s` when a word `cur` is under way: the maximal runs of
/// characters that are not white space.
pub open spec fn words_from(s: Seq<char>, cur: Seq<char>) -> Seq<Seq<char>>
    decreases s.len(),
{
    if s.len() == 0 {
        if cur.len() > 0 {
            seq![cur]
        } else {
            Seq::empty()
        }
    } else if is_white_space(s[0]) {
        (if cur.len() > 0 {
            seq![cur]
        } else {
            Seq::empty()
        }) + words_from(s.drop_first(), Seq::empty())
    } else {
        words_from(s.drop_first(), cur.push(s[0]))
    }
}

/// The whitespace-separated words of a line.
pub open spec fn words(s: Seq<char>) -> Seq<Seq<char>> {
    words_from(s, Seq::empty())
}

/// Relies on `str::split_whitespace`: the maximal runs of characters that
/// are not Unicode White_Space (`char::is_whitespace`), in order.
#[verifier::external_body]
fn split_whitespace(s: &str) -> (r: Vec<&str>)
    ensures
        views(r@) == words(s@),
{
    s.split_whitespace().collect()
}

fn same_text(a: &str, b: &str) -> (r: bool)
    ensures
        r == (a@ == b@),
{
    let n = a.unicode_len();
    if n != b.unicode_len() {
        return false;
    }
    let mut i: usize = 0;
    while i < n
        invariant
            i <= n,
            n == a@.len(),
            n == b@.len(),
            a@.take(i as int) == b@.take(i as int),
        decreases n - i,
    {
        if a.get_char(i) != b.get_char(i) {
            assert(a@[i as int] != b@[i as int]);
            return false;
        }
        assert(a@.take(i as int + 1) =~= a@.take(i as int).push(a@[i as int]));
        assert(b@.take(i as int + 1) =~= b@.take(i as int).push(b@[i as int]));
        i = i + 1;
    }
    assert(a@.take(n as int) =~= a@);
    assert(b@.take(n as int) =~= b@);
    true
}

/// One statement of a Wavefront OBJ file, as far as a triangle mesh reads
/// it.
#[derive(Clone, Copy, Debug, PartialEq, Eq, Structural)]
pub enum ObjLine {
    /// Nothing but whitespace.
    Blank,
    /// `#`: a comment.
    Comment,
    /// `v`: a vertex, whose three coordinates follow the keyword.
    Vertex,
    /// `vn`: a vertex normal; the file has normals.
    Normal,
    /// `vt`: a texture coordinate; the file has texture coordinates.
    TexCoord,
    /// `g`: a group name, which is skipped.
    Group,
    /// `s`: a smoothing group, which is skipped.
    Smoothing,
    /// `f`: a triangle.
    Face(Face),
}

/// The statement that the words of a line make, if they make one.
pub open spec fn spec_line(t: Seq<Seq<char>>) -> Option<ObjLine> {
    if t.len() == 0 {
        Some(ObjLine::Blank)
    } else if t[0] == "#"@ {
        Some(ObjLine::Comment)
    } else if t[0] == "v"@ {
        Some(ObjLine::Vertex)
    } else if t[0] == "vn"@ {
        Some(ObjLine::Normal)
    } else if t[0] == "vt"@ {
        Some(ObjLine::TexCoord)
    } else if t[0] == "g"@ {
        Some(ObjLine::Group)
    } else if t[0] == "s"@ {
        Some(ObjLine::Smoothing)
    } else if t[0] == "f"@ {
        match spec_face(t) {
            Some(f) => Some(ObjLine::Face(f)),
            None => None,
        }
    } else {
        None
    }
}

/// The words make a face statement one of whose entries is not a number.
pub open spec fn line_number_fails(t: Seq<Seq<char>>) -> bool {
    &&& t.len() >= 1
    &&& t[0] != "#"@ && t[0] != "v"@ && t[0] != "vn"@ && t[0] != "vt"@
    &&& t[0] != "g"@ && t[0] != "s"@ && t[0] == "f"@
    &&& face_number_fails(t)
}

impl ObjLine {
    /// Reads the statement that the words of a line make. A line that makes
    /// none (an unknown keyword, a face with fewer than three entries, an
    /// entry that names no vertex) is an error, a `parse_int` one where an
    /// entry is no number.
    pub fn from_tokens(tokens: &Vec<&str>, has_normals: bool, has_tex_coords: bool) -> (r: Result<
        ObjLine,
        MeshParseError,
    >)
        ensures
            r is Ok <==> spec_line(views(tokens@)) is Some,
            r matches Ok(l) ==> spec_line(views(tokens@)) == Some(l),
            r matches Err(e) ==> (e is parse_int <==> line_number_fails(views(tokens@))),
            r matches Err(e) ==> e is parse_int || e is string,
    {
        let ghost v = views(tokens@);
        if tokens.len() == 0 {
            return Ok(ObjLine::Blank);
        }
        let keyword = tokens[0];
        assert(v[0] == keyword@);
        if same_text(keyword, "#") {
            Ok(ObjLine::Comment)
        } else if same_text(keyword, "v") {
            Ok(ObjLine::Vertex)
        } else if same_text(keyword, "vn") {
            Ok(ObjLine::Normal)
        } else if same_text(keyword, "vt") {
            Ok(ObjLine::TexCoord)
        } else if same_text(keyword, "g") {
            Ok(ObjLine::Group)
        } else if same_text(keyword, "s") {
            Ok(ObjLine::Smoothing)
        } else if same_text(keyword, "f") {
            match Face::from_tokens(tokens, has_normals, has_tex_coords) {
                Ok(f) => Ok(ObjLine::Face(f)),
                Err(e) => Err(e),
            }
        } else {
            Err(MeshParseError::string(String::from_str("Could not parse: ").concat(keyword)))
        }
    }

    /// Reads the statement on one line of an OBJ file.
    pub fn parse(line: &str, has_normals: bool, has_tex_coords: bool) -> (r: Result<
        ObjLine,
        MeshParseError,
    >)
        ensures
            r is Ok <==> spec_line(words(line@)) is Some,
            r matches Ok(l) ==> spec_line(words(line@)) == Some(l),
            r matches Err(e) ==> (e is parse_int <==> line_number_fails(
                words(line@),
            )),
            r matches Err(e) ==> e is parse_int || e is string,
    {
        let tokens = split_whitespace(line);
        Self::from_tokens(&tokens, has_normals, has_tex_coords)
    }
}

/// A triangle mesh: a vertex list and faces that index into it.
pub struct Mesh<V> {
    verts: Vec<V>,
    faces: Vec<Face>,
}

impl<V: Copy> Mesh<V> {
    pub closed spec fn spec_verts(&self) -> Seq<V> {
        self.verts@
    }

    pub closed spec fn spec_faces(&self) -> Seq<Face> {
        self.faces@
    }

    pub fn new(verts: Vec<V>, faces: Vec<Face>) -> (r: Mesh<V>)
        ensures
            r.spec_verts() == verts@,
            r.spec_faces() == faces@,
    {
        Mesh { verts, faces }
    }

    /// The corners of every face, in the order of the faces; none where a
    /// face names a vertex that the list lacks.
    pub fn triangles(&self) -> (r: Option<Vec<[V; 3]>>)
        ensures
            r is Some <==> forall|f: int|
                0 <= f < self.spec_faces().len() ==> (#[trigger] self.spec_faces()[f]).fits(
                    self.spec_verts().len(),
                ),
            r matches Some(t) ==> t.len() == self.spec_faces().len() && forall|f: int|
                0 <= f < t.len() ==> (#[trigger] t@[f])@ == seq![
                    self.spec_verts()[self.spec_faces()[f].i as int],
                    self.spec_verts()[self.spec_faces()[f].j as int],
                    self.spec_verts()[self.spec_faces()[f].k as int],
                ],
    {
        let mut out: Vec<[V; 3]> = Vec::new();
        let mut f: usize = 0;
        while f < self.faces.len()
            invariant
                f <= self.faces.len(),
                out.len() == f,
                forall|g: int| 0 <= g < f ==> (#[trigger] self.faces@[g]).fits(self.verts.len() as nat),
                forall|g: int|
                    0 <= g < f ==> (#[trigger] out@[g])@ == seq![
                        self.verts@[self.faces@[g].i as int],
                        self.verts@[self.faces@[g].j as int],
                        self.verts@[self.faces@[g].k as int],
                    ],
            decreases self.faces.len() - f,
        {
            let face = self.faces[f];
            if !face.check_fits(self.verts.len()) {
                assert(!self.spec_faces()[f as int].fits(self.spec_verts().len()));
                return None;
            }
            out.push(face.as_tri(&self.verts));
            f = f + 1;
        }
        Some(out)
    }
}

} // verus!
