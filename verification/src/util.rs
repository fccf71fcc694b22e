//! Small geometric helpers shared by the engines.

use vstd::prelude::*;
use vstd::string::StrSliceExecFns;
use vstd::string::StringExecFns;
use crate::dice::roll;
use crate::items::{Item, ItemType};
use crate::text::same_text;

verus! {

/// A grid coordinate: row, then column.
pub type Coord = (usize, usize);

/// Two cells are neighbours when they differ, and by at most one in each axis.
pub open spec fn adjacent(a: Coord, b: Coord) -> bool {
    a != b && -1 <= a.0 - b.0 <= 1 && -1 <= a.1 - b.1 <= 1
}

/// Whether `(r0, c0)` and `(r1, c1)` are distinct cells that touch, diagonals included.
pub fn sqs_adj(r0: usize, c0: usize, r1: usize, c1: usize) -> (res: bool)
    ensures
        res == adjacent((r0, c0), (r1, c1)),
{
    let dr: usize = if r0 >= r1 { r0 - r1 } else { r1 - r0 };
    let dc: usize = if c0 >= c1 { c0 - c1 } else { c1 - c0 };
    dr <= 1 && dc <= 1 && !(dr == 0 && dc == 0)
}

/// The integer part of the square root of `v`.
pub open spec fn floor_sqrt(v: nat) -> nat
    decreases v,
{
    if v == 0 {
        0
    } else {
        let s = floor_sqrt((v - 1) as nat);
        if (s + 1) * (s + 1) <= v { s + 1 } else { s }
    }
}

/// `floor_sqrt(v)` is the one number whose square is at most `v` while the
/// square of its successor is not.
pub proof fn lemma_floor_sqrt(v: nat)
    ensures
        floor_sqrt(v) * floor_sqrt(v) <= v < (floor_sqrt(v) + 1) * (floor_sqrt(v) + 1),
    decreases v,
{
    if v == 0 {
        assert(floor_sqrt(0) == 0);
        assert(0 * 0 == 0 && (0 + 1) * (0 + 1) == 1) by (nonlinear_arith);
    } else {
        lemma_floor_sqrt((v - 1) as nat);
        let s = floor_sqrt((v - 1) as nat);
        let t = floor_sqrt(v);
        assert(t == if (s + 1) * (s + 1) <= v { s + 1 } else { s });
        assert((s + 1 + 1) * (s + 1 + 1) > (s + 1) * (s + 1)) by (nonlinear_arith)
            requires
                s >= 0,
        ;
    }
}

/// Any `d` squeezed around `v` like a floor square root is the floor square root.
pub proof fn lemma_floor_sqrt_unique(v: nat, d: nat)
    requires
        d * d <= v < (d + 1) * (d + 1),
    ensures
        d == floor_sqrt(v),
{
    lemma_floor_sqrt(v);
    let s = floor_sqrt(v);
    if d < s {
        assert((d + 1) * (d + 1) <= s * s) by (nonlinear_arith)
            requires
                d + 1 <= s,
        ;
    } else if s < d {
        assert((s + 1) * (s + 1) <= d * d) by (nonlinear_arith)
            requires
                s + 1 <= d,
        ;
    }
}

/// The square of the straight-line distance between two cells.
pub open spec fn dist_sq(r0: usize, c0: usize, r1: usize, c1: usize) -> nat {
    ((r0 - r1) * (r0 - r1) + (c0 - c1) * (c0 - c1)) as nat
}

/// The straight-line distance between two cells, rounded down.
pub open spec fn spec_cartesian_d(r0: usize, c0: usize, r1: usize, c1: usize) -> nat {
    floor_sqrt(dist_sq(r0, c0, r1, c1))
}

/// A distance held to the range of `usize`.
pub open spec fn capped(d: nat) -> nat {
    if d <= usize::MAX { d } else { usize::MAX as nat }
}

/// A rounded-down distance is below `k` exactly when the squared distance is below `k * k`.
pub proof fn lemma_distance_below(r0: usize, c0: usize, r1: usize, c1: usize, k: nat)
    ensures
        spec_cartesian_d(r0, c0, r1, c1) < k <==> dist_sq(r0, c0, r1, c1) < k * k,
{
    let v = dist_sq(r0, c0, r1, c1);
    let s = floor_sqrt(v);
    lemma_floor_sqrt(v);
    if s < k {
        assert((s + 1) * (s + 1) <= k * k) by (nonlinear_arith)
            requires
                s + 1 <= k,
        ;
    } else {
        assert(k * k <= s * s) by (nonlinear_arith)
            requires
                k <= s,
        ;
    }
}

/// The distance between two coordinates on one axis.
fn abs_diff(a: usize, b: usize) -> (d: usize)
    ensures
        d == if a >= b { a - b } else { b - a },
{
    if a >= b { a - b } else { b - a }
}

/// The straight-line distance between `(r0, c0)` and `(r1, c1)`, rounded down.
/// A distance too large for `usize` comes back as `usize::MAX`.
pub fn cartesian_d(r0: usize, c0: usize, r1: usize, c1: usize) -> (d: usize)
    ensures
        d as nat == capped(spec_cartesian_d(r0, c0, r1, c1)),
{
    let dr: u128 = abs_diff(r0, r1) as u128;
    let dc: u128 = abs_diff(c0, c1) as u128;
    let ghost v = dist_sq(r0, c0, r1, c1);
    assert(dr * dr <= 0xffff_ffff_ffff_ffff * 0xffff_ffff_ffff_ffff) by (nonlinear_arith)
        requires
            0 <= dr <= 0xffff_ffff_ffff_ffff,
    ;
    assert(dc * dc <= 0xffff_ffff_ffff_ffff * 0xffff_ffff_ffff_ffff) by (nonlinear_arith)
        requires
            0 <= dc <= 0xffff_ffff_ffff_ffff,
    ;
    assert(dr * dr == (r0 - r1) * (r0 - r1)) by (nonlinear_arith)
        requires
            dr == r0 - r1 || dr == r1 - r0,
    ;
    assert(dc * dc == (c0 - c1) * (c0 - c1)) by (nonlinear_arith)
        requires
            dc == c0 - c1 || dc == c1 - c0,
    ;
    let dr2: u128 = dr * dr;
    let dc2: u128 = dc * dc;
    proof {
        lemma_floor_sqrt(v);
    }
    if dr2 > u128::MAX - dc2 {
        proof {
            let s = floor_sqrt(v);
            assert(v > u128::MAX);
            if s <= usize::MAX {
                assert((s + 1) * (s + 1) <= 0x1_0000_0000_0000_0000 * 0x1_0000_0000_0000_0000)
                    by (nonlinear_arith)
                    requires
                        0 <= s + 1 <= 0x1_0000_0000_0000_0000,
                ;
            }
        }
        return usize::MAX;
    }
    let sum: u128 = dr2 + dc2;
    assert(sum == v);
    let mut lo: u128 = 0;
    let mut hi: u128 = 0x1_0000_0000_0000_0000;
    while hi - lo > 1
        invariant
            lo < hi <= 0x1_0000_0000_0000_0000,
            lo * lo <= sum,
            sum < hi * hi,
        decreases hi - lo,
    {
        let mid: u128 = lo + (hi - lo) / 2;
        assert(mid * mid <= 0xffff_ffff_ffff_ffff * 0xffff_ffff_ffff_ffff) by (nonlinear_arith)
            requires
                0 <= mid <= 0xffff_ffff_ffff_ffff,
        ;
        if mid * mid <= sum {
            lo = mid;
        } else {
            hi = mid;
        }
    }
    proof {
        lemma_floor_sqrt_unique(v, lo as nat);
    }
    if lo > usize::MAX as u128 {
        usize::MAX
    } else {
        lo as usize
    }
}

/// How far from the axis the circle of the given radius runs at `n` cells
/// distance along the other axis, by the midpoint rule: one cell nearer than
/// a step before whenever staying would leave the point too far outside.
pub open spec fn circle_x(radius: int, n: nat) -> int
    decreases n,
{
    if n == 0 {
        radius
    } else {
        let x = circle_x(radius, (n - 1) as nat);
        if n * n + x * x - radius * radius > x { x - 1 } else { x }
    }
}

/// The number of steps that the circle takes from step `n` on until the
/// eighth of a turn it draws is full.
pub open spec fn circle_steps(radius: int, n: nat) -> nat
    decreases (if n <= radius { radius - n + 1 } else { 0 }),
{
    if n > circle_x(radius, n) || n > radius {
        0
    } else {
        1 + circle_steps(radius, n + 1)
    }
}

/// The `k`-th of the eight mirror images of the point `(x, y)` of a circle round `(rc, cc)`.
pub open spec fn circle_point(rc: int, cc: int, x: int, y: int, k: int) -> (int, int) {
    if k == 0 {
        (rc + y, cc + x)
    } else if k == 1 {
        (rc + y, cc - x)
    } else if k == 2 {
        (rc - y, cc + x)
    } else if k == 3 {
        (rc - y, cc - x)
    } else if k == 4 {
        (rc + x, cc + y)
    } else if k == 5 {
        (rc + x, cc - y)
    } else if k == 6 {
        (rc - x, cc + y)
    } else {
        (rc - x, cc - y)
    }
}

/// The circle never runs farther out than its radius, nor farther in than one step a step.
pub proof fn lemma_circle_x_bounds(radius: int, n: nat)
    ensures
        radius - n <= circle_x(radius, n) <= radius,
    decreases n,
{
    if n > 0 {
        lemma_circle_x_bounds(radius, (n - 1) as nat);
    }
}

/// The points of a circle of the given radius round `(rc, cc)`: for each
/// step of one eighth of a turn its eight mirror images. A negative radius
/// gives no points.
pub fn bresenham_circle(rc: i32, cc: i32, radius: i32) -> (pts: Vec<(i32, i32)>)
    requires
        radius >= 0 ==> i32::MIN <= rc - radius && rc + radius <= i32::MAX,
        radius >= 0 ==> i32::MIN <= cc - radius && cc + radius <= i32::MAX,
    ensures
        pts@.len() == 8 * circle_steps(radius as int, 0),
        forall|n: int, k: int|
            0 <= n < circle_steps(radius as int, 0) && 0 <= k < 8 ==> (#[trigger] pts@[8 * n + k]).0
                == circle_point(rc as int, cc as int, circle_x(radius as int, n as nat), n, k).0
                && pts@[8 * n + k].1 == circle_point(
                rc as int,
                cc as int,
                circle_x(radius as int, n as nat),
                n,
                k,
            ).1,
{
    let mut pts: Vec<(i32, i32)> = Vec::new();
    if radius < 0 {
        return pts;
    }
    let ghost rad = radius as int;
    let r: i64 = rc as i64;
    let c: i64 = cc as i64;
    let mut x: i64 = radius as i64;
    let mut y: i64 = 0;
    let mut error: i128 = 0;
    let mut sqrx_inc: i64 = 2 * (radius as i64) - 1;
    let mut sqry_inc: i64 = 1;
    proof {
        assert(0 * 0 + rad * rad - rad * rad == 0) by (nonlinear_arith);
    }
    while y <= x
        invariant
            rad == radius as int,
            r == rc as int,
            c == cc as int,
            0 <= rad,
            i32::MIN <= rc - rad && rc + rad <= i32::MAX,
            i32::MIN <= cc - rad && cc + rad <= i32::MAX,
            0 <= y <= rad + 1,
            x == circle_x(rad, y as nat),
            -1 <= x <= rad,
            error == y * y + x * x - rad * rad,
            rad <= 0x7fff_ffff,
            sqrx_inc == 2 * x - 1,
            sqry_inc == 2 * y + 1,
            pts@.len() == 8 * y,
            circle_steps(rad, 0) == y + circle_steps(rad, y as nat),
            forall|n: int, k: int|
                0 <= n < y && 0 <= k < 8 ==> (#[trigger] pts@[8 * n + k]).0 == circle_point(
                    rc as int,
                    cc as int,
                    circle_x(rad, n as nat),
                    n,
                    k,
                ).0 && pts@[8 * n + k].1 == circle_point(
                    rc as int,
                    cc as int,
                    circle_x(rad, n as nat),
                    n,
                    k,
                ).1,
        decreases rad + 1 - y,
    {
        let ghost before = pts@;
        let ghost y0 = y as int;
        let ghost x0 = x as int;
        assert(y <= rad);
        pts.push(((r + y) as i32, (c + x) as i32));
        pts.push(((r + y) as i32, (c - x) as i32));
        pts.push(((r - y) as i32, (c + x) as i32));
        pts.push(((r - y) as i32, (c - x) as i32));
        pts.push(((r + x) as i32, (c + y) as i32));
        pts.push(((r + x) as i32, (c - y) as i32));
        pts.push(((r - x) as i32, (c + y) as i32));
        pts.push(((r - x) as i32, (c - y) as i32));
        proof {
            assert forall|n: int, k: int| 0 <= n < y0 + 1 && 0 <= k < 8 implies (#[trigger] pts@[8
                * n + k]).0 == circle_point(rc as int, cc as int, circle_x(rad, n as nat), n, k).0
                && pts@[8 * n + k].1 == circle_point(
                rc as int,
                cc as int,
                circle_x(rad, n as nat),
                n,
                k,
            ).1 by {
                if n < y0 {
                    assert(pts@[8 * n + k] == before[8 * n + k]);
                }
            }
        }
        proof {
            assert(-0x4000_0000_0000_0000 <= y * y + x * x - rad * rad <= 0x1_0000_0000_0000_0000)
                by (nonlinear_arith)
                requires
                    0 <= y <= rad + 1,
                    -1 <= x <= rad,
                    0 <= rad <= 0x7fff_ffff,
            ;
        }
        y = y + 1;
        error = error + sqry_inc as i128;
        sqry_inc = sqry_inc + 2;
        proof {
            assert(error == y * y + x0 * x0 - rad * rad) by (nonlinear_arith)
                requires
                    error == y0 * y0 + x0 * x0 - rad * rad + 2 * y0 + 1,
                    y == y0 + 1,
            ;
        }
        if error > x as i128 {
            x = x - 1;
            error = error - sqrx_inc as i128;
            sqrx_inc = sqrx_inc - 2;
            proof {
                assert(error == y * y + x * x - rad * rad) by (nonlinear_arith)
                    requires
                        error == y * y + x0 * x0 - rad * rad - (2 * x0 - 1),
                        x == x0 - 1,
                ;
            }
        }
        proof {
            assert(x == circle_x(rad, y as nat));
            lemma_circle_x_bounds(rad, y as nat);
        }
    }
    proof {
        assert(circle_steps(rad, y as nat) == 0);
    }
    pts
}

/// The compass point from `(r0, c0)` toward `(r1, c1)`, rows growing
/// southward and columns eastward. From a cell to itself it is "NW".
pub open spec fn spec_dir_between(r0: usize, c0: usize, r1: usize, c1: usize) -> Seq<char> {
    if r0 < r1 && c0 == c1 {
        "S"@
    } else if r0 < r1 && c0 < c1 {
        "SE"@
    } else if r0 < r1 && c0 > c1 {
        "SW"@
    } else if r0 == r1 && c0 < c1 {
        "E"@
    } else if r0 == r1 && c0 > c1 {
        "W"@
    } else if r0 > r1 && c0 < c1 {
        "NE"@
    } else if r0 > r1 && c0 == c1 {
        "N"@
    } else {
        "NW"@
    }
}

/// The compass point from `(r0, c0)` toward `(r1, c1)`.
pub fn dir_between_sqs(r0: usize, c0: usize, r1: usize, c1: usize) -> (res: String)
    ensures
        res@ == spec_dir_between(r0, c0, r1, c1),
{
    let dir: &str = if r0 < r1 && c0 == c1 {
        "S"
    } else if r0 < r1 && c0 < c1 {
        "SE"
    } else if r0 < r1 && c0 > c1 {
        "SW"
    } else if r0 == r1 && c0 < c1 {
        "E"
    } else if r0 == r1 && c0 > c1 {
        "W"
    } else if r0 > r1 && c0 < c1 {
        "NE"
    } else if r0 > r1 && c0 == c1 {
        "N"
    } else {
        "NW"
    };
    String::from_str(dir)
}

/// The step to the neighbour that goes with the throw `x` of an eight-sided
/// die: row by row from the north-west.
pub open spec fn spec_adj_for_roll(x: u8) -> (i32, i32) {
    if x == 1 {
        (-1i32, -1i32)
    } else if x == 2 {
        (-1i32, 0i32)
    } else if x == 3 {
        (-1i32, 1i32)
    } else if x == 4 {
        (0i32, -1i32)
    } else if x == 5 {
        (0i32, 1i32)
    } else if x == 6 {
        (1i32, -1i32)
    } else if x == 7 {
        (1i32, 0i32)
    } else {
        (1i32, 1i32)
    }
}

/// The step to the neighbour that goes with the throw `x` of an eight-sided die.
pub fn adj_for_roll(x: u8) -> (res: (i32, i32))
    ensures
        res == spec_adj_for_roll(x),
{
    if x == 1 {
        (-1, -1)
    } else if x == 2 {
        (-1, 0)
    } else if x == 3 {
        (-1, 1)
    } else if x == 4 {
        (0, -1)
    } else if x == 5 {
        (0, 1)
    } else if x == 6 {
        (1, -1)
    } else if x == 7 {
        (1, 0)
    } else {
        (1, 1)
    }
}

/// The step to one of the eight neighbours, chosen by the throw of a die.
pub fn rnd_adj() -> (res: (i32, i32))
    ensures
        exists|x: u8| 1 <= x <= 8 && res == #[trigger] spec_adj_for_roll(x),
        -1 <= res.0 <= 1,
        -1 <= res.1 <= 1,
        res != (0i32, 0i32),
{
    let x: u8 = roll(8, 1, 0);
    adj_for_roll(x)
}

/// The upper-case form of a character, which can be more than one character
/// long: what `char::to_uppercase` of the standard library yields.
pub uninterp spec fn uppercase_of(c: char) -> Seq<char>;

/// The upper-case form of `c` as a string: `char::to_uppercase`, collected.
#[verifier::external_body]
fn upper(c: char) -> (res: String)
    ensures
        res@ == uppercase_of(c),
{
    c.to_uppercase().collect::<String>()
}

/// A word with its first character in upper case.
pub open spec fn spec_capitalize(word: Seq<char>) -> Seq<char> {
    if word.len() == 0 {
        Seq::<char>::empty()
    } else {
        uppercase_of(word[0]) + word.subrange(1, word.len() as int)
    }
}

/// Joins the upper-case form of a first character and the rest of a word.
pub fn capitalize_with(first_upper: String, rest: &str) -> (res: String)
    ensures
        res@ == first_upper@ + rest@,
{
    first_upper.concat(rest)
}

/// The word with its first character in upper case; an empty word stays empty.
pub fn capitalize_word(word: &str) -> (res: String)
    ensures
        res@ == spec_capitalize(word@),
{
    let n: usize = word.unicode_len();
    if n == 0 {
        return String::new();
    }
    let first: char = word.get_char(0);
    let rest: &str = word.substring_char(1, n);
    capitalize_with(upper(first), rest)
}

/// The name of an item behind its article, definite or indefinite; the name
/// alone where the item takes no article.
pub open spec fn spec_articled_name(definite: bool, item: Item) -> Seq<char> {
    if item.item_type == ItemType::MacGuffin {
        item.name@
    } else if definite {
        "the "@ + item.name@
    } else if item.name@.len() > 0 && crate::items::is_vowel(item.name@[0]) {
        "an "@ + item.name@
    } else {
        "a "@ + item.name@
    }
}

/// The name of `item` behind its article.
pub fn get_articled_name(definite: bool, item: &Item) -> (res: String)
    ensures
        res@ == spec_articled_name(definite, *item),
{
    let article = if definite {
        item.get_definite_article()
    } else {
        item.get_indefinite_article()
    };
    proof {
        reveal_strlit("");
        reveal_strlit("the");
        reveal_strlit("the ");
        reveal_strlit("an");
        reveal_strlit("an ");
        reveal_strlit("a");
        reveal_strlit("a ");
        reveal_strlit(" ");
    }
    if article.as_str().unicode_len() == 0 {
        item.name.clone()
    } else {
        let mut s = article;
        s.append(" ");
        s.append(item.name.as_str());
        proof {
            assert(s@ =~= spec_articled_name(definite, *item));
        }
        s
    }
}

/// The words from which the names of vessels are made.
#[derive(Debug)]
pub struct NameSeeds {
    pub adjectives: Vec<String>,
    pub nouns: Vec<String>,
    pub proper_nouns: Vec<String>,
}

impl NameSeeds {
    /// No words yet.
    pub fn new() -> (res: NameSeeds)
        ensures
            res.adjectives@.len() == 0,
            res.nouns@.len() == 0,
            res.proper_nouns@.len() == 0,
    {
        NameSeeds { adjectives: Vec::new(), nouns: Vec::new(), proper_nouns: Vec::new() }
    }
}

/// Whether a character is white space: the characters that Unicode gives
/// the property White_Space.
pub open spec fn is_space(c: char) -> bool {
    let n = c as u32;
    (0x09 <= n <= 0x0d) || n == 0x20 || n == 0x85 || n == 0xa0 || n == 0x1680 || (0x2000 <= n
        <= 0x200a) || n == 0x2028 || n == 0x2029 || n == 0x202f || n == 0x205f || n == 0x3000
}

/// Whether `c` is white space.
pub fn space(c: char) -> (res: bool)
    ensures
        res == is_space(c),
{
    let n: u32 = c as u32;
    (0x09 <= n && n <= 0x0d) || n == 0x20 || n == 0x85 || n == 0xa0 || n == 0x1680 || (0x2000 <= n
        && n <= 0x200a) || n == 0x2028 || n == 0x2029 || n == 0x202f || n == 0x205f || n == 0x3000
}

/// The position of the first character of `s` from `from` on that is not
/// white space, or `to`.
pub open spec fn skip_space(s: Seq<char>, from: int, to: int) -> int
    decreases to - from,
{
    if from >= to || from < 0 || to > s.len() {
        to
    } else if is_space(s[from]) {
        skip_space(s, from + 1, to)
    } else {
        from
    }
}

/// The position behind the last character of `s` between `from` and `to`
/// that is not white space, or `from`.
pub open spec fn drop_space(s: Seq<char>, from: int, to: int) -> int
    decreases to - from,
{
    if from >= to || from < 0 || to > s.len() {
        from
    } else if is_space(s[to - 1]) {
        drop_space(s, from, to - 1)
    } else {
        to
    }
}

/// The part of `s` between `from` and `to` without the white space at its ends.
pub open spec fn trimmed(s: Seq<char>, from: int, to: int) -> Seq<char> {
    let a = skip_space(s, from, to);
    s.subrange(a, drop_space(s, a, to))
}

/// The position of the first line feed in `s` from `from` on, or the length of `s`.
pub open spec fn line_end(s: Seq<char>, from: int) -> int
    decreases s.len() - from,
{
    if from < 0 || from >= s.len() {
        s.len() as int
    } else if s[from] == '\n' {
        from
    } else {
        line_end(s, from + 1)
    }
}

/// The words of a file of names, list by list as sequences of characters.
pub struct Words {
    pub adjectives: Seq<Seq<char>>,
    pub nouns: Seq<Seq<char>>,
    pub proper_nouns: Seq<Seq<char>>,
}

/// What one line of a file of names does: a heading chooses the list that
/// the lines after it go to, an empty line does nothing, and any other line
/// is a word for the list chosen, which at first is that of the adjectives.
pub open spec fn take_line(words: Words, reading: int, line: Seq<char>) -> (Words, int) {
    if line.len() == 0 {
        (words, reading)
    } else if line == "# Adjectives"@ {
        (words, 0)
    } else if line == "# Nouns"@ {
        (words, 1)
    } else if line == "# Proper Nouns"@ {
        (words, 2)
    } else if reading == 0 {
        (Words { adjectives: words.adjectives.push(line), ..words }, reading)
    } else if reading == 1 {
        (Words { nouns: words.nouns.push(line), ..words }, reading)
    } else {
        (Words { proper_nouns: words.proper_nouns.push(line), ..words }, reading)
    }
}

/// The words of the file `s` from position `from` on, line by line, each
/// line without the white space at its ends.
pub open spec fn words_from(s: Seq<char>, from: int, words: Words, reading: int) -> Words
    decreases s.len() - from,
{
    if from < 0 || from > s.len() {
        words
    } else {
        let end = line_end(s, from);
        let next = take_line(words, reading, trimmed(s, from, end));
        if end >= s.len() {
            next.0
        } else {
            proof {
                lemma_line_end_bounds(s, from);
            }
            words_from(s, end + 1, next.0, next.1)
        }
    }
}

/// The words of a file of names.
pub open spec fn spec_parse_names(s: Seq<char>) -> Words {
    words_from(
        s,
        0,
        Words { adjectives: Seq::empty(), nouns: Seq::empty(), proper_nouns: Seq::empty() },
        0,
    )
}

/// A list of strings as a list of sequences of characters.
pub open spec fn texts(v: Seq<String>) -> Seq<Seq<char>> {
    Seq::new(v.len(), |i: int| v[i]@)
}

/// The words that the seeds hold.
pub open spec fn words_of(ns: NameSeeds) -> Words {
    Words {
        adjectives: texts(ns.adjectives@),
        nouns: texts(ns.nouns@),
        proper_nouns: texts(ns.proper_nouns@),
    }
}

/// The end of a line lies at or behind its start, within the text.
pub proof fn lemma_line_end_bounds(s: Seq<char>, from: int)
    requires
        0 <= from <= s.len(),
    ensures
        from <= line_end(s, from) <= s.len(),
    decreases s.len() - from,
{
    if from < s.len() && s[from] != '\n' {
        lemma_line_end_bounds(s, from + 1);
    }
}

/// The part of `text` between the positions `from` and `to`, without the
/// white space at its ends.
pub fn trim_between(text: &str, from: usize, to: usize) -> (res: String)
    requires
        from <= to <= text@.len(),
    ensures
        res@ == trimmed(text@, from as int, to as int),
{
    let mut a: usize = from;
    while a < to && space(text.get_char(a))
        invariant
            from <= a <= to,
            to <= text@.len(),
            skip_space(text@, from as int, to as int) == skip_space(text@, a as int, to as int),
        decreases to - a,
    {
        a += 1;
    }
    let mut b: usize = to;
    while a < b && space(text.get_char(b - 1))
        invariant
            a <= b <= to,
            to <= text@.len(),
            drop_space(text@, a as int, to as int) == drop_space(text@, a as int, b as int),
        decreases b - a,
    {
        b -= 1;
    }
    String::from_str(text.substring_char(a, b))
}

/// The words of a file of names: lines under the headings "# Adjectives",
/// "# Nouns" and "# Proper Nouns", one word a line.
pub fn parse_names(contents: &str) -> (ns: NameSeeds)
    ensures
        words_of(ns) == spec_parse_names(contents@),
{
    let mut ns = NameSeeds::new();
    let n: usize = contents.unicode_len();
    let mut reading: u8 = 0;
    let mut from: usize = 0;
    let mut done: bool = false;
    proof {
        assert(words_of(ns).adjectives =~= Seq::<Seq<char>>::empty());
        assert(words_of(ns).nouns =~= Seq::<Seq<char>>::empty());
        assert(words_of(ns).proper_nouns =~= Seq::<Seq<char>>::empty());
    }
    while !done
        invariant
            from <= n,
            n == contents@.len(),
            reading <= 2,
            !done ==> spec_parse_names(contents@) == words_from(
                contents@,
                from as int,
                words_of(ns),
                reading as int,
            ),
            done ==> spec_parse_names(contents@) == words_of(ns),
        decreases n - from + (if done { 0int } else { 1int }),
    {
        let mut end: usize = from;
        while end < n && contents.get_char(end) != '\n'
            invariant
                from <= end <= n,
                n == contents@.len(),
                line_end(contents@, from as int) == line_end(contents@, end as int),
            decreases n - end,
        {
            end += 1;
        }
        let line = trim_between(contents, from, end);
        let ghost before = words_of(ns);
        if line.as_str().unicode_len() == 0 {
        } else if same_text(line.as_str(), "# Adjectives") {
            reading = 0;
        } else if same_text(line.as_str(), "# Nouns") {
            reading = 1;
        } else if same_text(line.as_str(), "# Proper Nouns") {
            reading = 2;
        } else if reading == 0 {
            ns.adjectives.push(line);
            proof {
                assert(words_of(ns).adjectives =~= before.adjectives.push(line@));
            }
        } else if reading == 1 {
            ns.nouns.push(line);
            proof {
                assert(words_of(ns).nouns =~= before.nouns.push(line@));
            }
        } else {
            ns.proper_nouns.push(line);
            proof {
                assert(words_of(ns).proper_nouns =~= before.proper_nouns.push(line@));
            }
        }
        if end >= n {
            done = true;
        } else {
            from = end + 1;
        }
    }
    ns
}

} // verus!
