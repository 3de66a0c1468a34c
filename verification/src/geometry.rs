use vstd::prelude::*;
use crate::error::Error;
use crate::text::find_char;
use crate::text::lemma_find_char_unique;
use crate::text::lemma_fmt_int_chars;
use crate::text::lemma_fmt_int_parse;
use crate::text::parse_i32_str;
use crate::text::format_i32;
use crate::text::is_digit;
use crate::text::spec_find_char;
use crate::text::spec_fmt_int;
use crate::text::spec_parse_i32;

verus! {

/// A rectangle in signed integer coordinates. It is empty iff `width <= 0`
/// or `height <= 0`.
#[derive(Debug, Clone, Copy, PartialEq, Eq, Structural)]
pub struct Box {
    pub x: i32,
    pub y: i32,
    pub width: i32,
    pub height: i32,
}

impl Box {
    pub fn new(x: i32, y: i32, width: i32, height: i32) -> (r: Self)
        ensures
            r.x == x,
            r.y == y,
            r.width == width,
            r.height == height,
    {
        Self { x, y, width, height }
    }

    pub fn x(&self) -> (r: i32)
        ensures
            r == self.x,
    {
        self.x
    }

    pub fn y(&self) -> (r: i32)
        ensures
            r == self.y,
    {
        self.y
    }

    pub fn width(&self) -> (r: i32)
        ensures
            r == self.width,
    {
        self.width
    }

    pub fn height(&self) -> (r: i32)
        ensures
            r == self.height,
    {
        self.height
    }

    /// Whether the rectangle contains no points.
    pub open spec fn spec_is_empty(&self) -> bool {
        self.width <= 0 || self.height <= 0
    }

    pub fn is_empty(&self) -> (r: bool)
        ensures
            r == self.spec_is_empty(),
    {
        self.width <= 0 || self.height <= 0
    }

    /// Whether the two rectangles share at least one point.
    pub open spec fn spec_intersects(&self, other: &Box) -> bool {
        &&& !self.spec_is_empty()
        &&& !other.spec_is_empty()
        &&& vstd::math::max(self.x as int, other.x as int) < vstd::math::min(
            self.x + self.width,
            other.x + other.width,
        )
        &&& vstd::math::max(self.y as int, other.y as int) < vstd::math::min(
            self.y + self.height,
            other.y + other.height,
        )
    }

    pub fn intersects(&self, other: &Box) -> (r: bool)
        ensures
            r == self.spec_intersects(other),
    {
        if self.is_empty() || other.is_empty() {
            return false;
        }
        let x1 = if self.x >= other.x {
            self.x
        } else {
            other.x
        };
        let y1 = if self.y >= other.y {
            self.y
        } else {
            other.y
        };
        let sx2 = self.x as i64 + self.width as i64;
        let ox2 = other.x as i64 + other.width as i64;
        let x2 = if sx2 <= ox2 {
            sx2
        } else {
            ox2
        };
        let sy2 = self.y as i64 + self.height as i64;
        let oy2 = other.y as i64 + other.height as i64;
        let y2 = if sy2 <= oy2 {
            sy2
        } else {
            oy2
        };
        x2 > x1 as i64 && y2 > y1 as i64
    }

    /// The geometric intersection of two rectangles, if they intersect.
    pub open spec fn spec_intersection(&self, other: &Box) -> Option<Box> {
        if self.spec_intersects(other) {
            let x1 = vstd::math::max(self.x as int, other.x as int);
            let y1 = vstd::math::max(self.y as int, other.y as int);
            let x2 = vstd::math::min(self.x + self.width, other.x + other.width);
            let y2 = vstd::math::min(self.y + self.height, other.y + other.height);
            Some(
                Box {
                    x: x1 as i32,
                    y: y1 as i32,
                    width: (x2 - x1) as i32,
                    height: (y2 - y1) as i32,
                },
            )
        } else {
            None
        }
    }

    pub fn intersection(&self, other: &Box) -> (r: Option<Box>)
        ensures
            r == self.spec_intersection(other),
            r is Some ==> !r.unwrap().spec_is_empty(),
    {
        if !self.intersects(other) {
            return None;
        }
        let x1 = if self.x >= other.x {
            self.x
        } else {
            other.x
        };
        let y1 = if self.y >= other.y {
            self.y
        } else {
            other.y
        };
        let sx2 = self.x as i64 + self.width as i64;
        let ox2 = other.x as i64 + other.width as i64;
        let x2 = if sx2 <= ox2 {
            sx2
        } else {
            ox2
        };
        let sy2 = self.y as i64 + self.height as i64;
        let oy2 = other.y as i64 + other.height as i64;
        let y2 = if sy2 <= oy2 {
            sy2
        } else {
            oy2
        };
        Some(Box::new(x1, y1, (x2 - x1 as i64) as i32, (y2 - y1 as i64) as i32))
    }
}


/// The rectangle a text of the form `"x,y wxh"` denotes: exactly one space
/// separating two halves, exactly one comma splitting the first into two
/// integers and exactly one `x` splitting the second into two; any other
/// shape denotes nothing.
pub open spec fn spec_parse_box(s: Seq<char>) -> Option<Box> {
    let sp = spec_find_char(s, ' ');
    if sp == s.len() {
        None
    } else {
        let part0 = s.take(sp);
        let rest = s.skip(sp + 1);
        if spec_find_char(rest, ' ') != rest.len() {
            None
        } else {
            let comma = spec_find_char(part0, ',');
            let ex = spec_find_char(rest, 'x');
            if comma == part0.len() || ex == rest.len() {
                None
            } else {
                let xs = part0.take(comma);
                let ys = part0.skip(comma + 1);
                let ws = rest.take(ex);
                let hs = rest.skip(ex + 1);
                if spec_find_char(ys, ',') != ys.len() || spec_find_char(hs, 'x') != hs.len() {
                    None
                } else {
                    match (spec_parse_i32(xs), spec_parse_i32(ys), spec_parse_i32(ws),
                    spec_parse_i32(hs)) {
                        (Some(x), Some(y), Some(width), Some(height)) => Some(
                            Box { x, y, width, height },
                        ),
                        _ => None,
                    }
                }
            }
        }
    }
}

/// The canonical text of a rectangle: `"x,y wxh"` with canonical decimal
/// integers.
pub open spec fn spec_box_text(b: Box) -> Seq<char> {
    spec_fmt_int(b.x as int) + seq![','] + spec_fmt_int(b.y as int) + seq![' '] + spec_fmt_int(
        b.width as int,
    ) + seq!['x'] + spec_fmt_int(b.height as int)
}

impl Box {
    /// Parses the strict text form `"x,y wxh"`; any other shape fails with
    /// an invalid-geometry error carrying the text.
    pub fn parse_text(s: &str) -> (r: Result<Box, Error>)
        ensures
            match r {
                Ok(b) => spec_parse_box(s@) == Some(b),
                Err(e) => {
                    &&& spec_parse_box(s@) is None
                    &&& e matches Error::InvalidGeometry(m) && m@ == s@
                },
            },
    {
        let len = s.unicode_len();
        let sp = find_char(s, ' ');
        proof {
            crate::text::lemma_find_char_props(s@, ' ');
        }
        if sp == len {
            return Err(Error::InvalidGeometry(s.to_owned()));
        }
        let part0 = s.substring_char(0, sp);
        let rest = s.substring_char(sp + 1, len);
        proof {
            assert(part0@ =~= s@.take(sp as int));
            assert(rest@ =~= s@.skip(sp as int + 1));
        }
        let rest_len = rest.unicode_len();
        if find_char(rest, ' ') != rest_len {
            return Err(Error::InvalidGeometry(s.to_owned()));
        }
        let part0_len = part0.unicode_len();
        let comma = find_char(part0, ',');
        let ex = find_char(rest, 'x');
        proof {
            crate::text::lemma_find_char_props(part0@, ',');
            crate::text::lemma_find_char_props(rest@, 'x');
        }
        if comma == part0_len || ex == rest_len {
            return Err(Error::InvalidGeometry(s.to_owned()));
        }
        let xs = part0.substring_char(0, comma);
        let ys = part0.substring_char(comma + 1, part0_len);
        let ws = rest.substring_char(0, ex);
        let hs = rest.substring_char(ex + 1, rest_len);
        proof {
            assert(xs@ =~= part0@.take(comma as int));
            assert(ys@ =~= part0@.skip(comma as int + 1));
            assert(ws@ =~= rest@.take(ex as int));
            assert(hs@ =~= rest@.skip(ex as int + 1));
        }
        if find_char(ys, ',') != ys.unicode_len() || find_char(hs, 'x') != hs.unicode_len() {
            return Err(Error::InvalidGeometry(s.to_owned()));
        }
        let x = match parse_i32_str(xs) {
            Some(v) => v,
            None => {
                return Err(Error::InvalidGeometry(s.to_owned()));
            },
        };
        let y = match parse_i32_str(ys) {
            Some(v) => v,
            None => {
                return Err(Error::InvalidGeometry(s.to_owned()));
            },
        };
        let width = match parse_i32_str(ws) {
            Some(v) => v,
            None => {
                return Err(Error::InvalidGeometry(s.to_owned()));
            },
        };
        let height = match parse_i32_str(hs) {
            Some(v) => v,
            None => {
                return Err(Error::InvalidGeometry(s.to_owned()));
            },
        };
        Ok(Box::new(x, y, width, height))
    }

    /// The canonical text of this rectangle, `"x,y wxh"`.
    pub fn to_text(&self) -> (r: String)
        ensures
            r@ == spec_box_text(*self),
    {
        let mut out = format_i32(self.x);
        out.append(",");
        let ytext = format_i32(self.y);
        out.append(ytext.as_str());
        out.append(" ");
        let wtext = format_i32(self.width);
        out.append(wtext.as_str());
        out.append("x");
        let htext = format_i32(self.height);
        out.append(htext.as_str());
        proof {
            reveal_strlit(",");
            reveal_strlit(" ");
            reveal_strlit("x");
            assert(","@ =~= seq![',']);
            assert(" "@ =~= seq![' ']);
            assert("x"@ =~= seq!['x']);
            assert(out@ =~= spec_box_text(*self));
        }
        out
    }
}

/// A character of a canonical integer text is never a space, a comma or an
/// `x`.
proof fn lemma_fmt_int_no_separator(v: int)
    ensures
        forall|i: int|
            0 <= i < spec_fmt_int(v).len() ==> (#[trigger] spec_fmt_int(v)[i]) != ' '
                && spec_fmt_int(v)[i] != ',' && spec_fmt_int(v)[i] != 'x',
        spec_fmt_int(v).len() >= 1,
{
    lemma_fmt_int_chars(v);
    assert forall|i: int|
        0 <= i < spec_fmt_int(v).len() implies (#[trigger] spec_fmt_int(v)[i]) != ' '
        && spec_fmt_int(v)[i] != ',' && spec_fmt_int(v)[i] != 'x' by {
        let c = spec_fmt_int(v)[i];
        assert(c == '-' || is_digit(c));
        assert('-' as u32 == 45 && ' ' as u32 == 32 && ',' as u32 == 44 && 'x' as u32 == 120);
    }
}

/// Parsing the canonical text of a rectangle gives the rectangle back: the
/// text form round-trips through the strict parser for every rectangle.
pub proof fn lemma_box_text_round_trip(b: Box)
    ensures
        spec_parse_box(spec_box_text(b)) == Some(b),
{
    let fx = spec_fmt_int(b.x as int);
    let fy = spec_fmt_int(b.y as int);
    let fw = spec_fmt_int(b.width as int);
    let fh = spec_fmt_int(b.height as int);
    let s = spec_box_text(b);
    lemma_fmt_int_no_separator(b.x as int);
    lemma_fmt_int_no_separator(b.y as int);
    lemma_fmt_int_no_separator(b.width as int);
    lemma_fmt_int_no_separator(b.height as int);
    let sp: int = fx.len() as int + 1 + fy.len() as int;
    assert(s[sp] == ' ');
    assert forall|i: int| 0 <= i < sp implies s[i] != ' ' by {
        if i < fx.len() {
            assert(s[i] == fx[i]);
        } else if i == fx.len() {
            assert(s[i] == ',');
        } else {
            assert(s[i] == fy[i - fx.len() - 1]);
        }
    }
    lemma_find_char_unique(s, ' ', sp);
    let part0 = s.take(sp);
    let rest = s.skip(sp + 1);
    assert(part0 =~= fx + seq![','] + fy);
    assert(rest =~= fw + seq!['x'] + fh);
    assert forall|i: int| 0 <= i < rest.len() implies rest[i] != ' ' by {
        if i < fw.len() {
            assert(rest[i] == fw[i]);
        } else if i == fw.len() {
            assert(rest[i] == 'x');
        } else {
            assert(rest[i] == fh[i - fw.len() - 1]);
        }
    }
    lemma_find_char_unique(rest, ' ', rest.len() as int);
    assert forall|i: int| 0 <= i < fx.len() implies part0[i] != ',' by {
        assert(part0[i] == fx[i]);
    }
    assert(part0[fx.len() as int] == ',');
    lemma_find_char_unique(part0, ',', fx.len() as int);
    assert forall|i: int| 0 <= i < fw.len() implies rest[i] != 'x' by {
        assert(rest[i] == fw[i]);
    }
    assert(rest[fw.len() as int] == 'x');
    lemma_find_char_unique(rest, 'x', fw.len() as int);
    let xs = part0.take(fx.len() as int);
    let ys = part0.skip(fx.len() as int + 1);
    let ws = rest.take(fw.len() as int);
    let hs = rest.skip(fw.len() as int + 1);
    assert(xs =~= fx);
    assert(ys =~= fy);
    assert(ws =~= fw);
    assert(hs =~= fh);
    assert forall|i: int| 0 <= i < ys.len() implies ys[i] != ',' by {
        assert(ys[i] == fy[i]);
    }
    lemma_find_char_unique(ys, ',', ys.len() as int);
    assert forall|i: int| 0 <= i < hs.len() implies hs[i] != 'x' by {
        assert(hs[i] == fh[i]);
    }
    lemma_find_char_unique(hs, 'x', hs.len() as int);
    lemma_fmt_int_parse(b.x as int);
    lemma_fmt_int_parse(b.y as int);
    lemma_fmt_int_parse(b.width as int);
    lemma_fmt_int_parse(b.height as int);
}

impl std::str::FromStr for Box {
    type Err = crate::error::Error;

    fn from_str(s: &str) -> Result<Self, Self::Err> {
        Box::parse_text(s)
    }
}

} // verus!
