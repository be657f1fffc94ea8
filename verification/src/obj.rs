//! The OBJ data model and its parser: the token vocabulary, the per-line
//! grammar of each entity, multi-object splitting, one-based to zero-based
//! face-index rebasing, and the parse-all / parse-first / parse-single
//! entry points over text.
//!
//! Coordinates are carried as their source tokens, validated against the
//! float grammar; turning a token into a machine float is a concern of
//! callers that render.

use vstd::prelude::*;
use vstd::string::*;

use crate::error::Error;
use crate::error::ErrorV;
use crate::num::is_float_token;
use crate::num::is_float_str;
use crate::num::is_uint_string;
use crate::num::uint_value;
use crate::num::parse_uint_capped;
use crate::num::dec_digits;
use crate::num::dec_str;
use crate::text::tokens_of;
use crate::text::tokenize;
use crate::text::split_on;
use crate::text::split_str;
use crate::text::tail_of;

verus! {

// ----------------------------------------------------------------------
// Token vocabulary
// ----------------------------------------------------------------------

/// The closed set of recognized line-leading directives.
#[derive(Clone, Copy, Debug, PartialEq, Eq, Structural)]
pub enum ObjToken {
    O,
    V,
    Vn,
    Vt,
    S,
    F,
}

/// The directive a first token selects, if it lies in the vocabulary.
pub open spec fn token_of_word(t: Seq<char>) -> Option<ObjToken> {
    if t == seq!['o'] {
        Some(ObjToken::O)
    } else if t == seq!['v'] {
        Some(ObjToken::V)
    } else if t == seq!['v', 'n'] {
        Some(ObjToken::Vn)
    } else if t == seq!['v', 't'] {
        Some(ObjToken::Vt)
    } else if t == seq!['s'] {
        Some(ObjToken::S)
    } else if t == seq!['f'] {
        Some(ObjToken::F)
    } else {
        None
    }
}

/// The canonical lowercase word of each directive.
pub open spec fn word_of_token(t: ObjToken) -> Seq<char> {
    match t {
        ObjToken::O => seq!['o'],
        ObjToken::V => seq!['v'],
        ObjToken::Vn => seq!['v', 'n'],
        ObjToken::Vt => seq!['v', 't'],
        ObjToken::S => seq!['s'],
        ObjToken::F => seq!['f'],
    }
}

/// The word-to-directive map is the exact inverse of the directive-to-word
/// map: every canonical word maps back to its directive, and a word that
/// maps to a directive is that directive's canonical word.
pub proof fn lemma_token_vocabulary_bijective()
    ensures
        forall|t: ObjToken| #[trigger] token_of_word(word_of_token(t)) == Some(t),
        forall|w: Seq<char>| #[trigger] token_of_word(w) matches Some(t) ==> w == word_of_token(t),
{
    assert forall|t: ObjToken| #[trigger] token_of_word(word_of_token(t)) == Some(t) by {
        assert(seq!['o'].len() == 1 && seq!['o'][0] == 'o');
        assert(seq!['v'].len() == 1 && seq!['v'][0] == 'v');
        assert(seq!['v', 'n'].len() == 2 && seq!['v', 'n'][0] == 'v' && seq!['v', 'n'][1] == 'n');
        assert(seq!['v', 't'].len() == 2 && seq!['v', 't'][0] == 'v' && seq!['v', 't'][1] == 't');
        assert(seq!['s'].len() == 1 && seq!['s'][0] == 's');
        assert(seq!['f'].len() == 1 && seq!['f'][0] == 'f');
    }
}

impl ObjToken {
    /// The canonical word of this directive.
    pub fn as_str(&self) -> (r: &'static str)
        ensures
            r@ == word_of_token(*self),
    {
        proof {
            reveal_strlit("o");
            reveal_strlit("v");
            reveal_strlit("vn");
            reveal_strlit("vt");
            reveal_strlit("s");
            reveal_strlit("f");
            assert("o"@ =~= seq!['o']);
            assert("v"@ =~= seq!['v']);
            assert("vn"@ =~= seq!['v', 'n']);
            assert("vt"@ =~= seq!['v', 't']);
            assert("s"@ =~= seq!['s']);
            assert("f"@ =~= seq!['f']);
        }
        match self {
            ObjToken::O => "o",
            ObjToken::V => "v",
            ObjToken::Vn => "vn",
            ObjToken::Vt => "vt",
            ObjToken::S => "s",
            ObjToken::F => "f",
        }
    }

    /// Looks `s` up in the vocabulary; a word outside it is the
    /// unrecognized-token failure, which line dispatch treats as skip.
    pub fn from_token(s: &str) -> (r: Result<ObjToken, Error>)
        ensures
            match r {
                Ok(t) => token_of_word(s@) == Some(t),
                Err(e) => token_of_word(s@) is None && e@ == ErrorV::UnrecognizedToken(s@),
            },
    {
        proof {
            reveal_strlit("o");
            reveal_strlit("v");
            reveal_strlit("vn");
            reveal_strlit("vt");
            reveal_strlit("s");
            reveal_strlit("f");
            assert("o"@ =~= seq!['o']);
            assert("v"@ =~= seq!['v']);
            assert("vn"@ =~= seq!['v', 'n']);
            assert("vt"@ =~= seq!['v', 't']);
            assert("s"@ =~= seq!['s']);
            assert("f"@ =~= seq!['f']);
        }
        let t = s.to_owned();
        if t.eq(&"o".to_owned()) {
            Ok(ObjToken::O)
        } else if t.eq(&"v".to_owned()) {
            Ok(ObjToken::V)
        } else if t.eq(&"vn".to_owned()) {
            Ok(ObjToken::Vn)
        } else if t.eq(&"vt".to_owned()) {
            Ok(ObjToken::Vt)
        } else if t.eq(&"s".to_owned()) {
            Ok(ObjToken::S)
        } else if t.eq(&"f".to_owned()) {
            Ok(ObjToken::F)
        } else {
            Err(Error::UnrecognizedToken(t))
        }
    }
}

// ----------------------------------------------------------------------
// Geometric primitives
// ----------------------------------------------------------------------

/// The mathematical image of a [`Vertex`]: three coordinate tokens.
#[verifier::ext_equal]
pub struct VertexV {
    pub x: Seq<char>,
    pub y: Seq<char>,
    pub z: Seq<char>,
}

impl VertexV {
    /// Each coordinate token lies in the float grammar.
    pub open spec fn wf(self) -> bool {
        is_float_token(self.x) && is_float_token(self.y) && is_float_token(self.z)
    }
}

/// A world-space position: three coordinate tokens in the float grammar.
#[derive(Clone, Debug, PartialEq, Eq)]
pub struct Vertex {
    pub x: String,
    pub y: String,
    pub z: String,
}

impl View for Vertex {
    type V = VertexV;

    open spec fn view(&self) -> VertexV {
        VertexV { x: self.x@, y: self.y@, z: self.z@ }
    }
}

impl DeepView for Vertex {
    type V = VertexV;

    open spec fn deep_view(&self) -> VertexV {
        self.view()
    }
}

/// Reads three coordinate tokens, left to right; the first token outside
/// the float grammar is the numeric-parse failure.
pub open spec fn triple_from_parts(x: Seq<char>, y: Seq<char>, z: Seq<char>) -> Result<
    VertexV,
    ErrorV,
> {
    if !is_float_token(x) {
        Err(ErrorV::ParseFloat(x))
    } else if !is_float_token(y) {
        Err(ErrorV::ParseFloat(y))
    } else if !is_float_token(z) {
        Err(ErrorV::ParseFloat(z))
    } else {
        Ok(VertexV { x, y, z })
    }
}

/// The vertex-line grammar over a token slice: exactly the three data
/// tokens, or the `v` directive and then the three.
pub open spec fn vertex_from_tokens(toks: Seq<Seq<char>>) -> Result<VertexV, ErrorV> {
    if toks.len() == 3 {
        triple_from_parts(toks[0], toks[1], toks[2])
    } else if toks.len() == 4 && token_of_word(toks[0]) == Some(ObjToken::V) {
        triple_from_parts(toks[1], toks[2], toks[3])
    } else {
        Err(ErrorV::InvalidVertexFormat)
    }
}

pub open spec fn matches_vertex_result(r: Result<Vertex, Error>, m: Result<VertexV, ErrorV>) -> bool {
    match (r, m) {
        (Ok(v), Ok(mv)) => v@ == mv,
        (Err(e), Err(me)) => e@ == me,
        _ => false,
    }
}

/// Reads three coordinate tokens into a [`VertexV`]-shaped triple.
fn parts_to_triple(x: &String, y: &String, z: &String) -> (r: Result<(String, String, String), Error>)
    ensures
        match (r, triple_from_parts(x@, y@, z@)) {
            (Ok(v), Ok(mv)) => v.0@ == mv.x && v.1@ == mv.y && v.2@ == mv.z,
            (Err(e), Err(me)) => e@ == me,
            _ => false,
        },
{
    if !is_float_str(x.as_str()) {
        return Err(Error::ParseFloat(x.clone()));
    }
    if !is_float_str(y.as_str()) {
        return Err(Error::ParseFloat(y.clone()));
    }
    if !is_float_str(z.as_str()) {
        return Err(Error::ParseFloat(z.clone()));
    }
    Ok((x.clone(), y.clone(), z.clone()))
}

impl Vertex {
    pub fn new(x: String, y: String, z: String) -> (r: Self)
        ensures
            r@ == (VertexV { x: x@, y: y@, z: z@ }),
    {
        Vertex { x, y, z }
    }

    /// The coordinates in order, as the mesh-building consumer reads them.
    pub fn to_arr(&self) -> (r: Vec<String>)
        ensures
            r.deep_view() =~= seq![self@.x, self@.y, self@.z],
    {
        let mut r: Vec<String> = Vec::new();
        r.push(self.x.clone());
        r.push(self.y.clone());
        r.push(self.z.clone());
        r
    }

    /// Parses a vertex from a token slice: three data tokens, optionally
    /// led by the `v` directive.
    pub fn try_from_tokens(toks: &Vec<String>) -> (r: Result<Self, Error>)
        ensures
            matches_vertex_result(r, vertex_from_tokens(toks.deep_view())),
    {
        let ghost tv = toks.deep_view();
        if toks.len() == 3 {
            match parts_to_triple(&toks[0], &toks[1], &toks[2]) {
                Ok(p) => Ok(Vertex { x: p.0, y: p.1, z: p.2 }),
                Err(e) => Err(e),
            }
        } else if toks.len() == 4 {
            match ObjToken::from_token(toks[0].as_str()) {
                Ok(ObjToken::V) => match parts_to_triple(&toks[1], &toks[2], &toks[3]) {
                    Ok(p) => Ok(Vertex { x: p.0, y: p.1, z: p.2 }),
                    Err(e) => Err(e),
                },
                _ => Err(Error::InvalidVertexFormat),
            }
        } else {
            Err(Error::InvalidVertexFormat)
        }
    }

    /// Parses a vertex from a whole line, splitting on single spaces.
    pub fn from_str(s: &str) -> (r: Result<Self, Error>)
        ensures
            matches_vertex_result(r, vertex_from_tokens(split_on(s@, ' '))),
    {
        let toks = split_str(s, ' ');
        Self::try_from_tokens(&toks)
    }
}

/// The mathematical image of a [`Normal`]: three coordinate tokens.
#[verifier::ext_equal]
pub struct NormalV {
    pub x: Seq<char>,
    pub y: Seq<char>,
    pub z: Seq<char>,
}

impl NormalV {
    /// Each coordinate token lies in the float grammar.
    pub open spec fn wf(self) -> bool {
        is_float_token(self.x) && is_float_token(self.y) && is_float_token(self.z)
    }
}

/// A direction vector, not renormalized by the parser.
#[derive(Clone, Debug, PartialEq, Eq)]
pub struct Normal {
    pub x: String,
    pub y: String,
    pub z: String,
}

impl View for Normal {
    type V = NormalV;

    open spec fn view(&self) -> NormalV {
        NormalV { x: self.x@, y: self.y@, z: self.z@ }
    }
}

impl DeepView for Normal {
    type V = NormalV;

    open spec fn deep_view(&self) -> NormalV {
        self.view()
    }
}

/// The normal-line grammar over a token slice: exactly the three data
/// tokens, or the `vn` directive and then the three.
pub open spec fn normal_from_tokens(toks: Seq<Seq<char>>) -> Result<NormalV, ErrorV> {
    if toks.len() == 3 {
        normal_triple(toks[0], toks[1], toks[2])
    } else if toks.len() == 4 && token_of_word(toks[0]) == Some(ObjToken::Vn) {
        normal_triple(toks[1], toks[2], toks[3])
    } else {
        Err(ErrorV::InvalidNormalFormat)
    }
}

pub open spec fn normal_triple(x: Seq<char>, y: Seq<char>, z: Seq<char>) -> Result<NormalV, ErrorV> {
    match triple_from_parts(x, y, z) {
        Ok(v) => Ok(NormalV { x: v.x, y: v.y, z: v.z }),
        Err(e) => Err(e),
    }
}

pub open spec fn matches_normal_result(r: Result<Normal, Error>, m: Result<NormalV, ErrorV>) -> bool {
    match (r, m) {
        (Ok(v), Ok(mv)) => v@ == mv,
        (Err(e), Err(me)) => e@ == me,
        _ => false,
    }
}

impl Normal {
    pub fn new(x: String, y: String, z: String) -> (r: Self)
        ensures
            r@ == (NormalV { x: x@, y: y@, z: z@ }),
    {
        Normal { x, y, z }
    }

    /// The coordinates in order, as the mesh-building consumer reads them.
    pub fn to_arr(&self) -> (r: Vec<String>)
        ensures
            r.deep_view() =~= seq![self@.x, self@.y, self@.z],
    {
        let mut r: Vec<String> = Vec::new();
        r.push(self.x.clone());
        r.push(self.y.clone());
        r.push(self.z.clone());
        r
    }

    /// Parses a normal from a token slice: three data tokens, optionally
    /// led by the `vn` directive.
    pub fn try_from_tokens(toks: &Vec<String>) -> (r: Result<Self, Error>)
        ensures
            matches_normal_result(r, normal_from_tokens(toks.deep_view())),
    {
        if toks.len() == 3 {
            match parts_to_triple(&toks[0], &toks[1], &toks[2]) {
                Ok(p) => Ok(Normal { x: p.0, y: p.1, z: p.2 }),
                Err(e) => Err(e),
            }
        } else if toks.len() == 4 {
            match ObjToken::from_token(toks[0].as_str()) {
                Ok(ObjToken::Vn) => match parts_to_triple(&toks[1], &toks[2], &toks[3]) {
                    Ok(p) => Ok(Normal { x: p.0, y: p.1, z: p.2 }),
                    Err(e) => Err(e),
                },
                _ => Err(Error::InvalidNormalFormat),
            }
        } else {
            Err(Error::InvalidNormalFormat)
        }
    }

    /// Parses a normal from a whole line, splitting on single spaces.
    pub fn from_str(s: &str) -> (r: Result<Self, Error>)
        ensures
            matches_normal_result(r, normal_from_tokens(split_on(s@, ' '))),
    {
        let toks = split_str(s, ' ');
        Self::try_from_tokens(&toks)
    }
}

/// The mathematical image of a [`UVTexture`]: two coordinate tokens.
#[verifier::ext_equal]
pub struct UVTextureV {
    pub h: Seq<char>,
    pub v: Seq<char>,
}

impl UVTextureV {
    /// Each coordinate token lies in the float grammar.
    pub open spec fn wf(self) -> bool {
        is_float_token(self.h) && is_float_token(self.v)
    }
}

/// A texture-coordinate pair, fields `h` then `v`, kept literally.
#[derive(Clone, Debug, PartialEq, Eq)]
pub struct UVTexture {
    pub h: String,
    pub v: String,
}

impl View for UVTexture {
    type V = UVTextureV;

    open spec fn view(&self) -> UVTextureV {
        UVTextureV { h: self.h@, v: self.v@ }
    }
}

impl DeepView for UVTexture {
    type V = UVTextureV;

    open spec fn deep_view(&self) -> UVTextureV {
        self.view()
    }
}

/// The texture-line grammar over a token slice: exactly the two data
/// tokens, or the `vt` directive and then the two.
pub open spec fn uv_from_tokens(toks: Seq<Seq<char>>) -> Result<UVTextureV, ErrorV> {
    if toks.len() == 2 {
        uv_pair(toks[0], toks[1])
    } else if toks.len() == 3 && token_of_word(toks[0]) == Some(ObjToken::Vt) {
        uv_pair(toks[1], toks[2])
    } else {
        Err(ErrorV::InvalidUVTextureFormat)
    }
}

pub open spec fn uv_pair(h: Seq<char>, v: Seq<char>) -> Result<UVTextureV, ErrorV> {
    if !is_float_token(h) {
        Err(ErrorV::ParseFloat(h))
    } else if !is_float_token(v) {
        Err(ErrorV::ParseFloat(v))
    } else {
        Ok(UVTextureV { h, v })
    }
}

pub open spec fn matches_uv_result(r: Result<UVTexture, Error>, m: Result<UVTextureV, ErrorV>) -> bool {
    match (r, m) {
        (Ok(v), Ok(mv)) => v@ == mv,
        (Err(e), Err(me)) => e@ == me,
        _ => false,
    }
}

/// Reads two coordinate tokens, left to right.
fn parts_to_pair(h: &String, v: &String) -> (r: Result<(String, String), Error>)
    ensures
        match (r, uv_pair(h@, v@)) {
            (Ok(p), Ok(mv)) => p.0@ == mv.h && p.1@ == mv.v,
            (Err(e), Err(me)) => e@ == me,
            _ => false,
        },
{
    if !is_float_str(h.as_str()) {
        return Err(Error::ParseFloat(h.clone()));
    }
    if !is_float_str(v.as_str()) {
        return Err(Error::ParseFloat(v.clone()));
    }
    Ok((h.clone(), v.clone()))
}

impl UVTexture {
    pub fn new(h: String, v: String) -> (r: Self)
        ensures
            r@ == (UVTextureV { h: h@, v: v@ }),
    {
        UVTexture { h, v }
    }

    /// The coordinates in order, as the mesh-building consumer reads them.
    pub fn to_arr(&self) -> (r: Vec<String>)
        ensures
            r.deep_view() =~= seq![self@.h, self@.v],
    {
        let mut r: Vec<String> = Vec::new();
        r.push(self.h.clone());
        r.push(self.v.clone());
        r
    }

    /// Parses a texture coordinate from a token slice: two data tokens,
    /// optionally led by the `vt` directive.
    pub fn try_from_tokens(toks: &Vec<String>) -> (r: Result<Self, Error>)
        ensures
            matches_uv_result(r, uv_from_tokens(toks.deep_view())),
    {
        if toks.len() == 2 {
            match parts_to_pair(&toks[0], &toks[1]) {
                Ok(p) => Ok(UVTexture { h: p.0, v: p.1 }),
                Err(e) => Err(e),
            }
        } else if toks.len() == 3 {
            match ObjToken::from_token(toks[0].as_str()) {
                Ok(ObjToken::Vt) => match parts_to_pair(&toks[1], &toks[2]) {
                    Ok(p) => Ok(UVTexture { h: p.0, v: p.1 }),
                    Err(e) => Err(e),
                },
                _ => Err(Error::InvalidUVTextureFormat),
            }
        } else {
            Err(Error::InvalidUVTextureFormat)
        }
    }

    /// Parses a texture coordinate from a whole line, splitting on single
    /// spaces.
    pub fn from_str(s: &str) -> (r: Result<Self, Error>)
        ensures
            matches_uv_result(r, uv_from_tokens(split_on(s@, ' '))),
    {
        let toks = split_str(s, ' ');
        Self::try_from_tokens(&toks)
    }
}

// ----------------------------------------------------------------------
// Smoothing
// ----------------------------------------------------------------------

/// The smoothing-group tag; 0 means off, and 0 is the default.
#[derive(Clone, Debug, PartialEq, Eq, Structural)]
pub struct Smoothing(pub u8);

impl Default for Smoothing {
    /// The default tag: smoothing off.
    fn default() -> (r: Self)
        ensures
            r.0 == 0,
    {
        Smoothing(0)
    }
}

impl Smoothing {
    /// Renders the tag in decimal.
    pub fn to_display_string(&self) -> (r: String)
        ensures
            r@ == dec_digits(self.0 as nat),
    {
        dec_str(self.0 as u64)
    }
}

/// The word `off`, in any letter case.
pub open spec fn is_off_word(s: Seq<char>) -> bool {
    s.len() == 3 && (s[0] == 'o' || s[0] == 'O') && (s[1] == 'f' || s[1] == 'F') && (s[2] == 'f'
        || s[2] == 'F')
}

/// The smoothing-argument grammar: `off` in any case is 0; otherwise the
/// token must be an unsigned 8-bit decimal.
pub open spec fn smoothing_from_word(t: Seq<char>) -> Result<u8, ErrorV> {
    if is_off_word(t) {
        Ok(0u8)
    } else if is_uint_string(t) && uint_value(t) <= 255 {
        Ok(uint_value(t) as u8)
    } else {
        Err(ErrorV::ParseInt(t))
    }
}

/// The smoothing-line grammar over a token slice: exactly one argument.
pub open spec fn smoothing_from_tokens(toks: Seq<Seq<char>>) -> Result<u8, ErrorV> {
    if toks.len() == 1 {
        smoothing_from_word(toks[0])
    } else {
        Err(ErrorV::InvalidSmoothingFormat)
    }
}

pub open spec fn matches_smoothing_result(r: Result<Smoothing, Error>, m: Result<u8, ErrorV>) -> bool {
    match (r, m) {
        (Ok(v), Ok(mv)) => v.0 == mv,
        (Err(e), Err(me)) => e@ == me,
        _ => false,
    }
}

impl Smoothing {
    /// Parses one smoothing argument token.
    pub fn from_str(s: &str) -> (r: Result<Self, Error>)
        ensures
            matches_smoothing_result(r, smoothing_from_word(s@)),
    {
        let n = s.unicode_len();
        if n == 3 {
            let c0 = s.get_char(0);
            let c1 = s.get_char(1);
            let c2 = s.get_char(2);
            if (c0 == 'o' || c0 == 'O') && (c1 == 'f' || c1 == 'F') && (c2 == 'f' || c2 == 'F') {
                return Ok(Smoothing(0));
            }
        }
        match parse_uint_capped(s, 255) {
            Some(v) => Ok(Smoothing(v as u8)),
            None => Err(Error::ParseInt(s.to_owned())),
        }
    }

    /// Parses a smoothing value from a token slice: exactly one token.
    pub fn try_from_tokens(toks: &Vec<String>) -> (r: Result<Self, Error>)
        ensures
            matches_smoothing_result(r, smoothing_from_tokens(toks.deep_view())),
    {
        if toks.len() == 1 {
            Self::from_str(toks[0].as_str())
        } else {
            Err(Error::InvalidSmoothingFormat)
        }
    }
}

// ----------------------------------------------------------------------
// Faces
// ----------------------------------------------------------------------

/// Zero-based indices into the owning object's arrays. The stored value is
/// the one-based source value less one; the parser does not check it
/// against the populated array lengths.
#[derive(Clone, Copy, Debug, PartialEq, Eq, Structural)]
pub struct FaceDefinition {
    pub vertex_index: usize,
    pub normal_index: usize,
    pub uv_texture_index: usize,
}

/// The face-vertex grammar: exactly three slash-separated parts, in source
/// order vertex, texture, normal, each an unsigned decimal of one or more;
/// a zero part (whose rebasing would go below zero) is the
/// face-definition-format failure, never a silent wrap.
pub open spec fn face_def_from_word(t: Seq<char>) -> Result<FaceDefinition, ErrorV> {
    let parts = split_on(t, '/');
    if parts.len() != 3 {
        Err(ErrorV::InvalidFaceDefinitionString)
    } else if !(is_uint_string(parts[0]) && uint_value(parts[0]) <= usize::MAX) {
        Err(ErrorV::ParseInt(parts[0]))
    } else if uint_value(parts[0]) == 0 {
        Err(ErrorV::InvalidFaceDefinitionString)
    } else if !(is_uint_string(parts[1]) && uint_value(parts[1]) <= usize::MAX) {
        Err(ErrorV::ParseInt(parts[1]))
    } else if uint_value(parts[1]) == 0 {
        Err(ErrorV::InvalidFaceDefinitionString)
    } else if !(is_uint_string(parts[2]) && uint_value(parts[2]) <= usize::MAX) {
        Err(ErrorV::ParseInt(parts[2]))
    } else if uint_value(parts[2]) == 0 {
        Err(ErrorV::InvalidFaceDefinitionString)
    } else {
        Ok(
            FaceDefinition {
                vertex_index: (uint_value(parts[0]) - 1) as usize,
                normal_index: (uint_value(parts[2]) - 1) as usize,
                uv_texture_index: (uint_value(parts[1]) - 1) as usize,
            },
        )
    }
}

pub open spec fn matches_face_def_result(
    r: Result<FaceDefinition, Error>,
    m: Result<FaceDefinition, ErrorV>,
) -> bool {
    match (r, m) {
        (Ok(v), Ok(mv)) => v == mv,
        (Err(e), Err(me)) => e@ == me,
        _ => false,
    }
}

impl FaceDefinition {
    pub fn new(vertex_index: usize, normal_index: usize, uv_texture_index: usize) -> (r: Self)
        ensures
            r.vertex_index == vertex_index,
            r.normal_index == normal_index,
            r.uv_texture_index == uv_texture_index,
    {
        Self { vertex_index, normal_index, uv_texture_index }
    }

    /// Parses one face-vertex token of the shape `v/vt/vn`, rebasing each
    /// one-based index to zero-based.
    pub fn from_str(s: &str) -> (r: Result<Self, Error>)
        ensures
            matches_face_def_result(r, face_def_from_word(s@)),
    {
        let parts = split_str(s, '/');
        if parts.len() != 3 {
            return Err(Error::InvalidFaceDefinitionString);
        }
        let v = match parse_uint_capped(parts[0].as_str(), usize::MAX as u64) {
            Some(v) => v,
            None => {
                return Err(Error::ParseInt(parts[0].clone()));
            },
        };
        if v == 0 {
            return Err(Error::InvalidFaceDefinitionString);
        }
        let vt = match parse_uint_capped(parts[1].as_str(), usize::MAX as u64) {
            Some(v) => v,
            None => {
                return Err(Error::ParseInt(parts[1].clone()));
            },
        };
        if vt == 0 {
            return Err(Error::InvalidFaceDefinitionString);
        }
        let vn = match parse_uint_capped(parts[2].as_str(), usize::MAX as u64) {
            Some(v) => v,
            None => {
                return Err(Error::ParseInt(parts[2].clone()));
            },
        };
        if vn == 0 {
            return Err(Error::InvalidFaceDefinitionString);
        }
        Ok(
            Self::new(
                (v - 1) as usize,
                (vn - 1) as usize,
                (vt - 1) as usize,
            ),
        )
    }
}

/// A polygon: an ordered list of face-vertex index triples; an empty list
/// is accepted.
#[derive(Clone, Debug, PartialEq, Eq)]
pub struct Face {
    pub face_defs: Vec<FaceDefinition>,
}

impl View for Face {
    type V = Seq<FaceDefinition>;

    open spec fn view(&self) -> Seq<FaceDefinition> {
        self.face_defs@
    }
}

impl DeepView for Face {
    type V = Seq<FaceDefinition>;

    open spec fn deep_view(&self) -> Seq<FaceDefinition> {
        self.face_defs@
    }
}

/// The rendering of one face-vertex triple: vertex, texture and normal
/// index in decimal, comma-separated.
pub open spec fn face_def_display(fd: FaceDefinition) -> Seq<char> {
    dec_digits(fd.vertex_index as nat) + seq![','] + dec_digits(fd.uv_texture_index as nat)
        + seq![','] + dec_digits(fd.normal_index as nat)
}

/// The rendering of a face: its triples' renderings, comma-joined.
pub open spec fn face_display(fds: Seq<FaceDefinition>) -> Seq<char>
    decreases fds.len(),
{
    if fds.len() == 0 {
        Seq::<char>::empty()
    } else if fds.len() == 1 {
        face_def_display(fds[0])
    } else {
        face_display(fds.drop_last()) + seq![','] + face_def_display(fds.last())
    }
}

impl Face {
    pub fn new(face_defs: Vec<FaceDefinition>) -> (r: Self)
        ensures
            r@ == face_defs@,
    {
        Self { face_defs }
    }

    /// Renders the face as its index triples, flattened and comma-joined.
    pub fn to_display_string(&self) -> (r: String)
        ensures
            r@ == face_display(self@),
    {
        proof {
            reveal_strlit(",");
            assert(","@ =~= seq![',']);
        }
        let mut s = String::new();
        let mut i: usize = 0;
        while i < self.face_defs.len()
            invariant
                i <= self.face_defs.len(),
                s@ == face_display(self.face_defs@.take(i as int)),
            decreases self.face_defs.len() - i,
        {
            proof {
                reveal_strlit(",");
                assert(","@ =~= seq![',']);
                assert(self.face_defs@.take(i + 1).drop_last() =~= self.face_defs@.take(i as int));
                assert(self.face_defs@.take(i + 1).last() == self.face_defs@[i as int]);
            }
            let fd = self.face_defs[i];
            if i > 0 {
                s.append(",");
            }
            let v = dec_str(fd.vertex_index as u64);
            s.append(v.as_str());
            s.append(",");
            let u = dec_str(fd.uv_texture_index as u64);
            s.append(u.as_str());
            s.append(",");
            let nn = dec_str(fd.normal_index as u64);
            s.append(nn.as_str());
            proof {
                assert(s@ =~= face_display(self.face_defs@.take(i + 1)));
            }
            i = i + 1;
        }
        proof {
            assert(self.face_defs@.take(self.face_defs@.len() as int) =~= self.face_defs@);
        }
        s
    }
}

/// The face-line grammar over the argument tokens: each token one
/// face-vertex triple, the first failing token deciding the error.
pub open spec fn face_defs_from_tokens(toks: Seq<Seq<char>>) -> Result<Seq<FaceDefinition>, ErrorV>
    decreases toks.len(),
{
    if toks.len() == 0 {
        Ok(Seq::<FaceDefinition>::empty())
    } else {
        match face_defs_from_tokens(toks.drop_last()) {
            Err(e) => Err(e),
            Ok(fds) => match face_def_from_word(toks.last()) {
                Err(e) => Err(e),
                Ok(fd) => Ok(fds.push(fd)),
            },
        }
    }
}

pub open spec fn matches_face_defs_result(
    r: Result<Vec<FaceDefinition>, Error>,
    m: Result<Seq<FaceDefinition>, ErrorV>,
) -> bool {
    match (r, m) {
        (Ok(v), Ok(mv)) => v@ == mv,
        (Err(e), Err(me)) => e@ == me,
        _ => false,
    }
}

/// A failed prefix decides the whole face line.
proof fn lemma_face_defs_err_persists(toks: Seq<Seq<char>>, n: int, m: int)
    requires
        0 <= n <= m <= toks.len(),
        face_defs_from_tokens(toks.take(n)) is Err,
    ensures
        face_defs_from_tokens(toks.take(m)) == face_defs_from_tokens(toks.take(n)),
    decreases m - n,
{
    if m > n {
        lemma_face_defs_err_persists(toks, n, m - 1);
        assert(toks.take(m).drop_last() =~= toks.take(m - 1));
    }
}

/// Parses every face-vertex token of a face line, left to right.
pub fn face_defs_from_token_vec(toks: &Vec<String>) -> (r: Result<Vec<FaceDefinition>, Error>)
    ensures
        matches_face_defs_result(r, face_defs_from_tokens(toks.deep_view())),
{
    let ghost tv = toks.deep_view();
    let mut out: Vec<FaceDefinition> = Vec::new();
    let mut i: usize = 0;
    proof {
        assert(tv.take(0) =~= Seq::<Seq<char>>::empty());
    }
    while i < toks.len()
        invariant
            i <= toks.len(),
            tv == toks.deep_view(),
            face_defs_from_tokens(tv.take(i as int)) == Ok::<_, ErrorV>(out@),
        decreases toks.len() - i,
    {
        proof {
            assert(tv.take(i + 1).drop_last() =~= tv.take(i as int));
            assert(tv.take(i + 1).last() == tv[i as int]);
        }
        match FaceDefinition::from_str(toks[i].as_str()) {
            Ok(fd) => {
                out.push(fd);
            },
            Err(e) => {
                proof {
                    lemma_face_defs_err_persists(tv, i + 1, tv.len() as int);
                    assert(tv.take(tv.len() as int) =~= tv);
                }
                return Err(e);
            },
        }
        i = i + 1;
    }
    proof {
        assert(tv.take(tv.len() as int) =~= tv);
    }
    Ok(out)
}

// ----------------------------------------------------------------------
// Object records and the document parser
// ----------------------------------------------------------------------

/// The mathematical image of an [`Obj3D`].
#[verifier::ext_equal]
pub struct ObjV {
    pub name: Option<Seq<char>>,
    pub vertices: Seq<VertexV>,
    pub normals: Seq<NormalV>,
    pub uv_textures: Seq<UVTextureV>,
    pub smoothing: u8,
    pub faces: Seq<Seq<FaceDefinition>>,
}

/// A fresh object record: the given name, empty arrays, smoothing 0.
pub open spec fn new_object_v(name: Option<Seq<char>>) -> ObjV {
    ObjV {
        name,
        vertices: Seq::<VertexV>::empty(),
        normals: Seq::<NormalV>::empty(),
        uv_textures: Seq::<UVTextureV>::empty(),
        smoothing: 0,
        faces: Seq::<Seq<FaceDefinition>>::empty(),
    }
}

impl ObjV {
    pub open spec fn with_vertex(self, v: VertexV) -> ObjV {
        ObjV { vertices: self.vertices.push(v), ..self }
    }

    pub open spec fn with_normal(self, v: NormalV) -> ObjV {
        ObjV { normals: self.normals.push(v), ..self }
    }

    pub open spec fn with_uv(self, v: UVTextureV) -> ObjV {
        ObjV { uv_textures: self.uv_textures.push(v), ..self }
    }

    pub open spec fn with_smoothing(self, v: u8) -> ObjV {
        ObjV { smoothing: v, ..self }
    }

    pub open spec fn with_face(self, fds: Seq<FaceDefinition>) -> ObjV {
        ObjV { faces: self.faces.push(fds), ..self }
    }

    /// Every coordinate token of the record lies in the float grammar.
    pub open spec fn wf(self) -> bool {
        (forall|i: int| 0 <= i < self.vertices.len() ==> (#[trigger] self.vertices[i]).wf())
            && (forall|i: int| 0 <= i < self.normals.len() ==> (#[trigger] self.normals[i]).wf())
            && (forall|i: int|
            0 <= i < self.uv_textures.len() ==> (#[trigger] self.uv_textures[i]).wf())
    }
}

/// One step of the document parser: dispatch one line against the current
/// document. A first token outside the vocabulary skips the line; an `o`
/// line always pushes a fresh record, named by the second token when one
/// is there; every other directive mutates the last record and fails with
/// the missing-object failure when there is none.
pub open spec fn line_step(objs: Seq<ObjV>, line: Seq<char>) -> Result<Seq<ObjV>, ErrorV> {
    let toks = tokens_of(line);
    let tail = toks.drop_first();
    match token_of_word(toks[0]) {
        None => Ok(objs),
        Some(ObjToken::O) => Ok(
            objs.push(
                new_object_v(
                    if toks.len() >= 2 {
                        Some(toks[1])
                    } else {
                        None
                    },
                ),
            ),
        ),
        Some(ObjToken::V) => if objs.len() == 0 {
            Err(ErrorV::MissingObjectDeclaration)
        } else {
            match vertex_from_tokens(tail) {
                Err(e) => Err(e),
                Ok(v) => Ok(objs.update(objs.len() - 1, objs.last().with_vertex(v))),
            }
        },
        Some(ObjToken::Vn) => if objs.len() == 0 {
            Err(ErrorV::MissingObjectDeclaration)
        } else {
            match normal_from_tokens(tail) {
                Err(e) => Err(e),
                Ok(v) => Ok(objs.update(objs.len() - 1, objs.last().with_normal(v))),
            }
        },
        Some(ObjToken::Vt) => if objs.len() == 0 {
            Err(ErrorV::MissingObjectDeclaration)
        } else {
            match uv_from_tokens(tail) {
                Err(e) => Err(e),
                Ok(v) => Ok(objs.update(objs.len() - 1, objs.last().with_uv(v))),
            }
        },
        Some(ObjToken::S) => if objs.len() == 0 {
            Err(ErrorV::MissingObjectDeclaration)
        } else {
            match smoothing_from_tokens(tail) {
                Err(e) => Err(e),
                Ok(v) => Ok(objs.update(objs.len() - 1, objs.last().with_smoothing(v))),
            }
        },
        Some(ObjToken::F) => if objs.len() == 0 {
            Err(ErrorV::MissingObjectDeclaration)
        } else {
            match face_defs_from_tokens(tail) {
                Err(e) => Err(e),
                Ok(fds) => Ok(objs.update(objs.len() - 1, objs.last().with_face(fds))),
            }
        },
    }
}

/// The document after the first `n` lines, empty at the start, the first
/// failure aborting everything after it.
pub open spec fn parse_lines_prefix(lines: Seq<Seq<char>>, n: int) -> Result<Seq<ObjV>, ErrorV>
    decreases n,
{
    if n <= 0 {
        Ok(Seq::<ObjV>::empty())
    } else {
        match parse_lines_prefix(lines, n - 1) {
            Err(e) => Err(e),
            Ok(objs) => line_step(objs, lines[n - 1]),
        }
    }
}

/// The document of a whole line list.
pub open spec fn parse_lines(lines: Seq<Seq<char>>) -> Result<Seq<ObjV>, ErrorV> {
    parse_lines_prefix(lines, lines.len() as int)
}

/// The document of a text: its lines between line feeds, parsed in order.
pub open spec fn parse_doc(text: Seq<char>) -> Result<Seq<ObjV>, ErrorV> {
    parse_lines(split_on(text, '\n'))
}

/// A failed prefix decides the whole parse: the first failure is final.
pub proof fn lemma_parse_prefix_err_persists(lines: Seq<Seq<char>>, n: int, m: int)
    requires
        0 <= n <= m,
        parse_lines_prefix(lines, n) is Err,
    ensures
        parse_lines_prefix(lines, m) == parse_lines_prefix(lines, n),
    decreases m - n,
{
    if m > n {
        lemma_parse_prefix_err_persists(lines, n, m - 1);
    }
}

/// One named grouping of vertices, normals, texture coordinates, a
/// smoothing tag and faces: the unit of mutation during parsing.
#[derive(Clone, Debug, PartialEq)]
pub struct Obj3D {
    pub name: Option<String>,
    pub vertices: Vec<Vertex>,
    pub normals: Vec<Normal>,
    pub uv_textures: Vec<UVTexture>,
    pub smoothing: Smoothing,
    pub faces: Vec<Face>,
}

impl View for Obj3D {
    type V = ObjV;

    open spec fn view(&self) -> ObjV {
        ObjV {
            name: self.name.deep_view(),
            vertices: self.vertices.deep_view(),
            normals: self.normals.deep_view(),
            uv_textures: self.uv_textures.deep_view(),
            smoothing: self.smoothing.0,
            faces: self.faces.deep_view(),
        }
    }
}

impl DeepView for Obj3D {
    type V = ObjV;

    open spec fn deep_view(&self) -> ObjV {
        self.view()
    }
}

pub open spec fn matches_objs_result(
    r: Result<Vec<Obj3D>, Error>,
    m: Result<Seq<ObjV>, ErrorV>,
) -> bool {
    match (r, m) {
        (Ok(v), Ok(mv)) => v.deep_view() == mv,
        (Err(e), Err(me)) => e@ == me,
        _ => false,
    }
}

impl Default for Obj3D {
    /// The default record: no name, empty arrays, smoothing off.
    fn default() -> (r: Self)
        ensures
            r@ == new_object_v(None),
    {
        let r = Obj3D {
            name: None,
            vertices: Vec::new(),
            normals: Vec::new(),
            uv_textures: Vec::new(),
            smoothing: Smoothing(0),
            faces: Vec::new(),
        };
        proof {
            assert(r@ =~~= new_object_v(None));
        }
        r
    }
}

impl Obj3D {
    pub fn new(
        name: Option<String>,
        vertices: Vec<Vertex>,
        normals: Vec<Normal>,
        uv_textures: Vec<UVTexture>,
        smoothing: Smoothing,
        faces: Vec<Face>,
    ) -> (r: Self)
        ensures
            r@ == (ObjV {
                name: name.deep_view(),
                vertices: vertices.deep_view(),
                normals: normals.deep_view(),
                uv_textures: uv_textures.deep_view(),
                smoothing: smoothing.0,
                faces: faces.deep_view(),
            }),
    {
        Self { name, vertices, normals, uv_textures, smoothing, faces }
    }

    /// A fresh record with the given name, empty arrays and smoothing 0.
    pub fn new_with_name(name: String) -> (r: Self)
        ensures
            r@ == new_object_v(Some(name@)),
    {
        let r = Self {
            name: Some(name),
            vertices: Vec::new(),
            normals: Vec::new(),
            uv_textures: Vec::new(),
            smoothing: Smoothing(0),
            faces: Vec::new(),
        };
        proof {
            assert(r@ =~~= new_object_v(Some(r.name.deep_view().unwrap())));
        }
        r
    }

    /// Parses a whole text into its ordered list of object records; the
    /// result is exactly `parse_doc` of the input.
    pub fn parse_string(s: &str) -> (r: Result<Vec<Self>, Error>)
        ensures
            matches_objs_result(r, parse_doc(s@)),
    {
        let lines = split_str(s, '\n');
        let ghost lv = lines.deep_view();
        let mut objs: Vec<Obj3D> = Vec::new();
        let mut i: usize = 0;
        proof {
            assert(objs.deep_view() =~= Seq::<ObjV>::empty());
        }
        while i < lines.len()
            invariant
                i <= lines.len(),
                lv == lines.deep_view(),
                lv == split_on(s@, '\n'),
                parse_lines_prefix(lv, i as int) == Ok::<Seq<ObjV>, ErrorV>(objs.deep_view()),
            decreases lines.len() - i,
        {
            let ghost before = objs.deep_view();
            let ghost line = lv[i as int];
            let toks = tokenize(lines[i].as_str());
            let ghost tk = tokens_of(line);
            proof {
                assert(toks.deep_view() == tk);
                assert(toks.deep_view()[0] == toks@[0]@);
            }
            match ObjToken::from_token(toks[0].as_str()) {
                Err(_) => {
                    proof {
                        assert(line_step(before, line) == Ok::<Seq<ObjV>, ErrorV>(before));
                    }
                },
                Ok(t) => {
                    if matches!(t, ObjToken::O) {
                        let ob = if toks.len() >= 2 {
                            proof {
                                assert(toks.deep_view()[1] == toks@[1]@);
                            }
                            Obj3D::new_with_name(toks[1].clone())
                        } else {
                            Obj3D::new(None, Vec::new(), Vec::new(), Vec::new(), Smoothing(0),
                                Vec::new())
                        };
                        proof {
                            assert(ob@ =~~= new_object_v(
                                if tk.len() >= 2 {
                                    Some(tk[1])
                                } else {
                                    None
                                },
                            ));
                        }
                        objs.push(ob);
                        proof {
                            assert(objs.deep_view() =~~= before.push(ob@));
                        }
                    } else {
                        if objs.len() == 0 {
                            proof {
                                assert(line_step(before, line) == Err::<Seq<ObjV>, ErrorV>(
                                    ErrorV::MissingObjectDeclaration,
                                ));
                                lemma_parse_prefix_err_persists(lv, i + 1, lv.len() as int);
                            }
                            return Err(Error::MissingObjectDeclaration);
                        }
                        let tail = tail_of(&toks);
                        proof {
                            assert(tail.deep_view() == tk.drop_first());
                        }
                        let mut cur = objs.pop().unwrap();
                        let ghost curv = cur@;
                        proof {
                            assert(before.last() == curv);
                        }
                        match t {
                            ObjToken::O => {
                                proof {
                                    assert(false);
                                }
                            },
                            ObjToken::V => {
                                match Vertex::try_from_tokens(&tail) {
                                    Ok(v) => {
                                        cur.vertices.push(v);
                                        proof {
                                            assert(cur.vertices.deep_view() =~~= curv.vertices.push(
                                                v@,
                                            ));
                                            assert(cur@ =~~= curv.with_vertex(v@));
                                        }
                                    },
                                    Err(e) => {
                                        proof {
                                            lemma_parse_prefix_err_persists(
                                                lv,
                                                i + 1,
                                                lv.len() as int,
                                            );
                                        }
                                        return Err(e);
                                    },
                                }
                            },
                            ObjToken::Vn => {
                                match Normal::try_from_tokens(&tail) {
                                    Ok(v) => {
                                        cur.normals.push(v);
                                        proof {
                                            assert(cur.normals.deep_view() =~~= curv.normals.push(
                                                v@,
                                            ));
                                            assert(cur@ =~~= curv.with_normal(v@));
                                        }
                                    },
                                    Err(e) => {
                                        proof {
                                            lemma_parse_prefix_err_persists(
                                                lv,
                                                i + 1,
                                                lv.len() as int,
                                            );
                                        }
                                        return Err(e);
                                    },
                                }
                            },
                            ObjToken::Vt => {
                                match UVTexture::try_from_tokens(&tail) {
                                    Ok(v) => {
                                        cur.uv_textures.push(v);
                                        proof {
                                            assert(cur.uv_textures.deep_view()
                                                =~~= curv.uv_textures.push(v@));
                                            assert(cur@ =~~= curv.with_uv(v@));
                                        }
                                    },
                                    Err(e) => {
                                        proof {
                                            lemma_parse_prefix_err_persists(
                                                lv,
                                                i + 1,
                                                lv.len() as int,
                                            );
                                        }
                                        return Err(e);
                                    },
                                }
                            },
                            ObjToken::S => {
                                match Smoothing::try_from_tokens(&tail) {
                                    Ok(v) => {
                                        cur.smoothing = v;
                                        proof {
                                            assert(cur@ =~~= curv.with_smoothing(v.0));
                                        }
                                    },
                                    Err(e) => {
                                        proof {
                                            lemma_parse_prefix_err_persists(
                                                lv,
                                                i + 1,
                                                lv.len() as int,
                                            );
                                        }
                                        return Err(e);
                                    },
                                }
                            },
                            ObjToken::F => {
                                match face_defs_from_token_vec(&tail) {
                                    Ok(fds) => {
                                        let face = Face::new(fds);
                                        cur.faces.push(face);
                                        proof {
                                            assert(cur.faces.deep_view() =~~= curv.faces.push(
                                                face@,
                                            ));
                                            assert(cur@ =~~= curv.with_face(face@));
                                        }
                                    },
                                    Err(e) => {
                                        proof {
                                            lemma_parse_prefix_err_persists(
                                                lv,
                                                i + 1,
                                                lv.len() as int,
                                            );
                                        }
                                        return Err(e);
                                    },
                                }
                            },
                        }
                        objs.push(cur);
                        proof {
                            assert(objs.deep_view() =~~= before.update(before.len() - 1, cur@));
                        }
                    }
                },
            }
            proof {
                assert(parse_lines_prefix(lv, i + 1) == Ok::<Seq<ObjV>, ErrorV>(objs.deep_view()));
            }
            i = i + 1;
        }
        proof {
            assert(parse_doc(s@) == parse_lines_prefix(lv, lv.len() as int));
        }
        Ok(objs)
    }

    /// Parses a whole text and hands back the first object record, or no
    /// record when the text declares none; zero objects is a valid
    /// outcome here, not a failure.
    pub fn parse_string_first(s: &str) -> (r: Result<Option<Self>, Error>)
        ensures
            match (r, parse_doc(s@)) {
                (Ok(Some(o)), Ok(m)) => m.len() > 0 && o@ == m[0],
                (Ok(None), Ok(m)) => m.len() == 0,
                (Err(e), Err(me)) => e@ == me,
                _ => false,
            },
    {
        match Self::parse_string(s) {
            Err(e) => Err(e),
            Ok(mut objs) => {
                if objs.len() == 0 {
                    Ok(None)
                } else {
                    let o = objs.remove(0);
                    Ok(Some(o))
                }
            },
        }
    }

    /// Parses a whole text that must declare exactly one object record;
    /// any other count is the cardinality failure carrying that count.
    pub fn parse_string_single(s: &str) -> (r: Result<Self, Error>)
        ensures
            match (r, parse_doc(s@)) {
                (Ok(o), Ok(m)) => m.len() == 1 && o@ == m[0],
                (Err(e), Ok(m)) => m.len() != 1 && e@ == ErrorV::ParseSingleObj(m.len()),
                (Err(e), Err(me)) => e@ == me,
                _ => false,
            },
    {
        match Self::parse_string(s) {
            Err(e) => Err(e),
            Ok(mut objs) => {
                if objs.len() == 1 {
                    let o = objs.remove(0);
                    Ok(o)
                } else {
                    Err(Error::ParseSingleObj(objs.len()))
                }
            },
        }
    }
}

} // verus!
