//! The per-cell directive parser.
//!
//! A cell's raw text may begin with a chain of directives: `rot:` asks for
//! rotated text, and `h=`, `s=` and `l=`, each followed by a numeric payload
//! and a colon, override the hue, saturation and lightness of the cell's
//! background.  Prefixes are stripped one per iteration, in a fixed check
//! order, until none matches; whatever remains is the display text.  A
//! numeric prefix whose payload is not numeric, or has no closing colon,
//! stops the scan and leaves everything after the two prefix characters as
//! the display text, verbatim.

use vstd::prelude::*;

use crate::numlit::is_float_literal;
use crate::numlit::parses_as_float;

verus! {

/// Which numeric directive a payload belongs to.
#[derive(Clone, Copy, Debug, PartialEq, Eq, Structural)]
pub enum NumField {
    /// The `h=` directive.
    Hue,
    /// The `s=` directive.
    Saturation,
    /// The `l=` directive.
    Lightness,
}

/// What directive parsing leaves of one cell, at the specification level.
/// An override of `None` means the directive did not occur and the default
/// for the cell's position applies.
pub ghost struct StyleSpec {
    /// The cell's text is drawn rotated.
    pub rotate: bool,
    /// Hue override, as the payload text.
    pub hue: Option<Seq<char>>,
    /// Saturation override, as the payload text.
    pub saturation: Option<Seq<char>>,
    /// Lightness override, as the payload text.
    pub lightness: Option<Seq<char>>,
    /// What remains to be drawn in the cell.
    pub display: Seq<char>,
}

/// What directive parsing leaves of one cell.
#[derive(Debug, Clone)]
pub struct CellStyle {
    /// The cell's text is drawn rotated.
    pub rotate: bool,
    /// Hue override, as the payload text, if the `h=` directive occurred.
    pub hue: Option<String>,
    /// Saturation override, if the `s=` directive occurred.
    pub saturation: Option<String>,
    /// Lightness override, if the `l=` directive occurred.
    pub lightness: Option<String>,
    /// What remains to be drawn in the cell.
    pub display: String,
}

impl View for CellStyle {
    type V = StyleSpec;

    open spec fn view(&self) -> StyleSpec {
        StyleSpec {
            rotate: self.rotate,
            hue: self.hue.deep_view(),
            saturation: self.saturation.deep_view(),
            lightness: self.lightness.deep_view(),
            display: self.display@,
        }
    }
}

/// The rotation prefix.
pub open spec fn rot_seq() -> Seq<char> {
    seq!['r', 'o', 't', ':']
}

/// The hue prefix.
pub open spec fn hue_seq() -> Seq<char> {
    seq!['h', '=']
}

/// The saturation prefix.
pub open spec fn sat_seq() -> Seq<char> {
    seq!['s', '=']
}

/// The lightness prefix.
pub open spec fn light_seq() -> Seq<char> {
    seq!['l', '=']
}

/// `s` begins with `p`.
pub open spec fn has_prefix(s: Seq<char>, p: Seq<char>) -> bool {
    p.len() <= s.len() && s.subrange(0, p.len() as int) == p
}

/// No directive prefix leads `s`: parsing it strips nothing.
pub open spec fn no_prefix_leads(s: Seq<char>) -> bool {
    &&& !has_prefix(s, rot_seq())
    &&& !has_prefix(s, hue_seq())
    &&& !has_prefix(s, sat_seq())
    &&& !has_prefix(s, light_seq())
}

/// The style of a cell whose text holds no directive at all.
pub open spec fn no_style(d: Seq<char>) -> StyleSpec {
    StyleSpec { rotate: false, hue: None, saturation: None, lightness: None, display: d }
}

/// Index of the first colon in `s`, if any.
pub open spec fn first_colon(s: Seq<char>) -> Option<int>
    decreases s.len(),
{
    if s.len() == 0 {
        None
    } else if s[0] == ':' {
        Some(0)
    } else {
        match first_colon(s.drop_first()) {
            None => None,
            Some(k) => Some(k + 1),
        }
    }
}

/// What `first_colon` finds is a colon, the first one.
pub proof fn lemma_first_colon_props(s: Seq<char>)
    ensures
        match first_colon(s) {
            None => forall|j: int| 0 <= j < s.len() ==> s[j] != ':',
            Some(k) => 0 <= k < s.len() && s[k] == ':' && forall|j: int| 0 <= j < k ==> s[j]
                != ':',
        },
    decreases s.len(),
{
    if s.len() == 0 {
    } else if s[0] == ':' {
    } else {
        let d = s.drop_first();
        lemma_first_colon_props(d);
        assert(forall|j: int| 0 <= j < d.len() ==> d[j] == s[j + 1]);
        match first_colon(d) {
            None => {
                assert forall|j: int| 0 <= j < s.len() implies s[j] != ':' by {
                    if j >= 1 {
                        assert(d[j - 1] == s[j]);
                    }
                }
            },
            Some(k) => {
                assert(d[k] == s[k + 1]);
                assert forall|j: int| 0 <= j < k + 1 implies s[j] != ':' by {
                    if j >= 1 {
                        assert(d[j - 1] == s[j]);
                    }
                }
            },
        }
    }
}

/// `r` with the field `f` set to `v` unless a later directive already set it:
/// of two payloads for one field, the later wins.
pub open spec fn with_field(r: StyleSpec, f: NumField, v: Seq<char>) -> StyleSpec {
    match f {
        NumField::Hue => StyleSpec {
            rotate: r.rotate,
            hue: if r.hue is None {
                Some(v)
            } else {
                r.hue
            },
            saturation: r.saturation,
            lightness: r.lightness,
            display: r.display,
        },
        NumField::Saturation => StyleSpec {
            rotate: r.rotate,
            hue: r.hue,
            saturation: if r.saturation is None {
                Some(v)
            } else {
                r.saturation
            },
            lightness: r.lightness,
            display: r.display,
        },
        NumField::Lightness => StyleSpec {
            rotate: r.rotate,
            hue: r.hue,
            saturation: r.saturation,
            lightness: if r.lightness is None {
                Some(v)
            } else {
                r.lightness
            },
            display: r.display,
        },
    }
}

/// The result of stripping directives from `s`: the prefixes are tried in a
/// fixed order, the first match is consumed, and the scan restarts on the
/// rest.
pub open spec fn parse_spec(s: Seq<char>) -> StyleSpec
    decreases s.len(), 1int,
{
    if has_prefix(s, rot_seq()) {
        let r = parse_spec(s.subrange(4, s.len() as int));
        StyleSpec {
            rotate: true,
            hue: r.hue,
            saturation: r.saturation,
            lightness: r.lightness,
            display: r.display,
        }
    } else if has_prefix(s, hue_seq()) {
        parse_numeric_spec(s.subrange(2, s.len() as int), NumField::Hue)
    } else if has_prefix(s, sat_seq()) {
        parse_numeric_spec(s.subrange(2, s.len() as int), NumField::Saturation)
    } else if has_prefix(s, light_seq()) {
        parse_numeric_spec(s.subrange(2, s.len() as int), NumField::Lightness)
    } else {
        no_style(s)
    }
}

/// The result of a numeric directive once its two prefix characters are
/// consumed, on the rest `t`: a numeric payload up to a colon sets the field
/// and the scan goes on after the colon; a missing colon or a non-numeric
/// payload ends the scan with `t` as the display text.
pub open spec fn parse_numeric_spec(t: Seq<char>, f: NumField) -> StyleSpec
    decreases t.len(), 0int,
    via parse_numeric_spec_dec
{
    match first_colon(t) {
        None => no_style(t),
        Some(k) => {
            let v = t.subrange(0, k);
            let rest = t.subrange(k + 1, t.len() as int);
            if is_float_literal(v) {
                with_field(parse_spec(rest), f, v)
            } else {
                no_style(t)
            }
        },
    }
}

#[via_fn]
proof fn parse_numeric_spec_dec(t: Seq<char>, f: NumField) {
    lemma_first_colon_props(t);
}

/// Whether `s` begins with the rotation prefix.
fn starts_with_rot(s: &str) -> (r: bool)
    ensures
        r == has_prefix(s@, rot_seq()),
{
    let n = s.unicode_len();
    if n < 4 {
        return false;
    }
    let r = s.get_char(0) == 'r' && s.get_char(1) == 'o' && s.get_char(2) == 't' && s.get_char(3)
        == ':';
    proof {
        if r {
            assert(s@.subrange(0, 4) =~= rot_seq());
        } else {
            if s@.subrange(0, 4) == rot_seq() {
                assert(s@[0] == rot_seq()[0] && s@[1] == rot_seq()[1] && s@[2] == rot_seq()[2]
                    && s@[3] == rot_seq()[3]);
            }
        }
    }
    r
}

/// Whether `s` begins with the two characters `c0`, `c1`.
fn starts_with2(s: &str, c0: char, c1: char) -> (r: bool)
    ensures
        r == has_prefix(s@, seq![c0, c1]),
{
    let n = s.unicode_len();
    if n < 2 {
        return false;
    }
    let r = s.get_char(0) == c0 && s.get_char(1) == c1;
    proof {
        if r {
            assert(s@.subrange(0, 2) =~= seq![c0, c1]);
        } else {
            if s@.subrange(0, 2) == seq![c0, c1] {
                assert(s@[0] == seq![c0, c1][0] && s@[1] == seq![c0, c1][1]);
            }
        }
    }
    r
}

/// Position of the first colon in `s`, if any.
fn find_colon(s: &str) -> (r: Option<usize>)
    ensures
        match r {
            None => first_colon(s@) is None,
            Some(i) => i < s@.len() && first_colon(s@) == Some(i as int),
        },
{
    let n = s.unicode_len();
    let mut i: usize = 0;
    while i < n
        invariant
            i <= n,
            n == s@.len(),
            forall|j: int| 0 <= j < i ==> s@[j] != ':',
        decreases n - i,
    {
        if s.get_char(i) == ':' {
            proof {
                lemma_first_colon_props(s@);
            }
            return Some(i);
        }
        i = i + 1;
    }
    proof {
        lemma_first_colon_props(s@);
    }
    None
}

/// Strips the chain of directives from a cell's raw text.
pub fn parse_directives(text: &str) -> (st: CellStyle)
    ensures
        st@ == parse_spec(text@),
    decreases text@.len(), 1int,
{
    let n = text.unicode_len();
    if starts_with_rot(text) {
        let rest = text.substring_char(4, n);
        let r = parse_directives(rest);
        CellStyle {
            rotate: true,
            hue: r.hue,
            saturation: r.saturation,
            lightness: r.lightness,
            display: r.display,
        }
    } else if starts_with2(text, 'h', '=') {
        parse_numeric(text.substring_char(2, n), NumField::Hue)
    } else if starts_with2(text, 's', '=') {
        parse_numeric(text.substring_char(2, n), NumField::Saturation)
    } else if starts_with2(text, 'l', '=') {
        parse_numeric(text.substring_char(2, n), NumField::Lightness)
    } else {
        CellStyle {
            rotate: false,
            hue: None,
            saturation: None,
            lightness: None,
            display: String::from_str(text),
        }
    }
}

/// Parses the payload of a numeric directive whose two prefix characters are
/// already consumed; `t` is the rest of the cell text.
fn parse_numeric(t: &str, f: NumField) -> (st: CellStyle)
    ensures
        st@ == parse_numeric_spec(t@, f),
    decreases t@.len(), 0int,
{
    let n = t.unicode_len();
    match find_colon(t) {
        None => CellStyle {
            rotate: false,
            hue: None,
            saturation: None,
            lightness: None,
            display: String::from_str(t),
        },
        Some(k) => {
            let v = t.substring_char(0, k);
            let rest = t.substring_char(k + 1, n);
            if parses_as_float(v) {
                let r = parse_directives(rest);
                match f {
                    NumField::Hue => CellStyle {
                        rotate: r.rotate,
                        hue: if r.hue.is_none() {
                            Some(String::from_str(v))
                        } else {
                            r.hue
                        },
                        saturation: r.saturation,
                        lightness: r.lightness,
                        display: r.display,
                    },
                    NumField::Saturation => CellStyle {
                        rotate: r.rotate,
                        hue: r.hue,
                        saturation: if r.saturation.is_none() {
                            Some(String::from_str(v))
                        } else {
                            r.saturation
                        },
                        lightness: r.lightness,
                        display: r.display,
                    },
                    NumField::Lightness => CellStyle {
                        rotate: r.rotate,
                        hue: r.hue,
                        saturation: r.saturation,
                        lightness: if r.lightness.is_none() {
                            Some(String::from_str(v))
                        } else {
                            r.lightness
                        },
                        display: r.display,
                    },
                }
            } else {
                CellStyle {
                    rotate: false,
                    hue: None,
                    saturation: None,
                    lightness: None,
                    display: String::from_str(t),
                }
            }
        },
    }
}

/// Directive stripping settles in one pass wherever the display text it
/// produces is not itself led by a directive prefix: parsing that display
/// text again changes nothing — same display text, no rotation, no
/// overrides.  (A malformed numeric payload can leave a display text that a
/// prefix leads, and a second pass would strip it; such inputs are outside
/// this statement.)
pub proof fn lemma_parse_idempotent(s: Seq<char>)
    requires
        no_prefix_leads(parse_spec(s).display),
    ensures
        parse_spec(parse_spec(s).display) == no_style(parse_spec(s).display),
{
}

} // verus!
