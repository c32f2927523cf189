use vstd::prelude::*;

verus! {

/// The distance between two coordinates.
pub open spec fn span(from: int, to: int) -> int {
    if from <= to {
        to - from
    } else {
        from - to
    }
}

/// The coordinate reached after `steps` unit steps from `from` towards `to`.
pub open spec fn advance(from: int, to: int, steps: int) -> int {
    if from < to {
        from + steps
    } else {
        from - steps
    }
}

/// The error term of the line walk after `a` horizontal and `b` vertical steps on a line that
/// spans `dx` columns and `dy` rows.
pub open spec fn walk_error(dx: int, dy: int, a: int, b: int) -> int {
    dx * (1 + b) - dy * (1 + a)
}

/// Whether the walk takes a horizontal step from the state `(a, b)`.
pub open spec fn steps_x(dx: int, dy: int, a: int, b: int) -> bool {
    2 * walk_error(dx, dy, a, b) >= -dy
}

/// Whether the walk takes a vertical step from the state `(a, b)`.
pub open spec fn steps_y(dx: int, dy: int, a: int, b: int) -> bool {
    2 * walk_error(dx, dy, a, b) <= dx
}

/// Each step of the walk moves at least one coordinate and never passes the end point.
pub proof fn lemma_walk_step(dx: int, dy: int, a: int, b: int)
    requires
        0 <= a <= dx,
        0 <= b <= dy,
        !(a == dx && b == dy),
    ensures
        steps_x(dx, dy, a, b) || steps_y(dx, dy, a, b),
        steps_x(dx, dy, a, b) ==> a < dx,
        steps_y(dx, dy, a, b) ==> b < dy,
{
    if a == dx {
        assert(dx * (1 + b) <= dx * dy) by (nonlinear_arith)
            requires
                0 <= dx,
                1 + b <= dy,
        ;
        assert(dy * (1 + a) == dy + dx * dy) by (nonlinear_arith)
            requires
                a == dx,
        ;
    }
    if b == dy {
        assert(dy * (1 + a) <= dy * dx) by (nonlinear_arith)
            requires
                0 <= dy,
                1 + a <= dx,
        ;
        assert(dx * (1 + b) == dx + dx * dy) by (nonlinear_arith)
            requires
                b == dy,
        ;
    }
}

/// The points that the walk visits from the state `(a, b)` on, ending at `(x1, y1)`.
pub open spec fn walk_from(x0: int, y0: int, x1: int, y1: int, a: int, b: int) -> Seq<(int, int)>
    decreases span(x0, x1) - a + span(y0, y1) - b,
{
    let dx = span(x0, x1);
    let dy = span(y0, y1);
    if !(0 <= a <= dx && 0 <= b <= dy) {
        Seq::empty()
    } else {
        let here = (advance(x0, x1, a), advance(y0, y1, b));
        if a == dx && b == dy {
            seq![here]
        } else {
            proof {
                lemma_walk_step(dx, dy, a, b);
            }
            let na = if steps_x(dx, dy, a, b) {
                a + 1
            } else {
                a
            };
            let nb = if steps_y(dx, dy, a, b) {
                b + 1
            } else {
                b
            };
            seq![here] + walk_from(x0, y0, x1, y1, na, nb)
        }
    }
}

/// How the error term changes with each kind of step.
proof fn lemma_walk_error_steps(dx: int, dy: int, a: int, b: int)
    ensures
        walk_error(dx, dy, a + 1, b) == walk_error(dx, dy, a, b) - dy,
        walk_error(dx, dy, a, b + 1) == walk_error(dx, dy, a, b) + dx,
        walk_error(dx, dy, a + 1, b + 1) == walk_error(dx, dy, a, b) - dy + dx,
{
    assert(dy * (1 + (a + 1)) == dy * (1 + a) + dy) by (nonlinear_arith);
    assert(dx * (1 + (b + 1)) == dx * (1 + b) + dx) by (nonlinear_arith);
}

/// The walk from a state within bounds starts at that state's point; unless that point is
/// the end, it continues with the walk from the next state.
pub proof fn lemma_walk_unfold(x0: int, y0: int, x1: int, y1: int, a: int, b: int)
    requires
        0 <= a <= span(x0, x1),
        0 <= b <= span(y0, y1),
    ensures
        walk_from(x0, y0, x1, y1, a, b).len() >= 1,
        walk_from(x0, y0, x1, y1, a, b)[0] == (advance(x0, x1, a), advance(y0, y1, b)),
        a == span(x0, x1) && b == span(y0, y1) ==> walk_from(x0, y0, x1, y1, a, b).len() == 1,
        !(a == span(x0, x1) && b == span(y0, y1)) ==> walk_from(x0, y0, x1, y1, a, b).drop_first()
            == walk_from(
            x0,
            y0,
            x1,
            y1,
            if steps_x(span(x0, x1), span(y0, y1), a, b) {
                a + 1
            } else {
                a
            },
            if steps_y(span(x0, x1), span(y0, y1), a, b) {
                b + 1
            } else {
                b
            },
        ),
{
    let dx = span(x0, x1);
    let dy = span(y0, y1);
    let here = (advance(x0, x1, a), advance(y0, y1, b));
    if !(a == dx && b == dy) {
        lemma_walk_step(dx, dy, a, b);
        let na = if steps_x(dx, dy, a, b) {
            a + 1
        } else {
            a
        };
        let nb = if steps_y(dx, dy, a, b) {
            b + 1
        } else {
            b
        };
        assert(walk_from(x0, y0, x1, y1, a, b) == seq![here] + walk_from(x0, y0, x1, y1, na, nb));
        assert((seq![here] + walk_from(x0, y0, x1, y1, na, nb)).drop_first() =~= walk_from(
            x0,
            y0,
            x1,
            y1,
            na,
            nb,
        ));
    }
}

/// The points of the digital line from `(x0, y0)` to `(x1, y1)`, as Bresenham's algorithm
/// visits them.
pub open spec fn line_points(x0: int, y0: int, x1: int, y1: int) -> Seq<(int, int)> {
    walk_from(x0, y0, x1, y1, 0, 0)
}

/// Whether a point lies on a canvas of the given size.
pub open spec fn on_canvas(p: (int, int), width: int, height: int) -> bool {
    0 <= p.0 < width && 0 <= p.1 < height
}

/// The points that lie on the canvas, in order, as pixel coordinates.
pub open spec fn visible(points: Seq<(int, int)>, width: int, height: int) -> Seq<(u32, u32)>
    decreases points.len(),
{
    if points.len() == 0 {
        Seq::empty()
    } else {
        let rest = visible(points.drop_first(), width, height);
        if on_canvas(points[0], width, height) {
            seq![(points[0].0 as u32, points[0].1 as u32)] + rest
        } else {
            rest
        }
    }
}

/// The pixels of a `width` x `height` canvas that a line from `(x0, y0)` to `(x1, y1)` covers,
/// in drawing order.
pub fn line_pixels(x0: i32, y0: i32, x1: i32, y1: i32, width: u32, height: u32) -> (pixels: Vec<
    (u32, u32),
>)
    ensures
        pixels@ == visible(
            line_points(x0 as int, y0 as int, x1 as int, y1 as int),
            width as int,
            height as int,
        ),
{
    let ghost gdx = span(x0 as int, x1 as int);
    let ghost gdy = span(y0 as int, y1 as int);
    let dx: i64 = if x0 <= x1 {
        x1 as i64 - x0 as i64
    } else {
        x0 as i64 - x1 as i64
    };
    let dy: i64 = if y0 <= y1 {
        y1 as i64 - y0 as i64
    } else {
        y0 as i64 - y1 as i64
    };
    let sx: i64 = if x0 < x1 {
        1
    } else {
        -1
    };
    let sy: i64 = if y0 < y1 {
        1
    } else {
        -1
    };
    let mut x: i64 = x0 as i64;
    let mut y: i64 = y0 as i64;
    let mut err: i64 = dx - dy;
    let ghost mut a: int = 0;
    let ghost mut b: int = 0;
    let mut pixels: Vec<(u32, u32)> = Vec::new();
    let ghost all = line_points(x0 as int, y0 as int, x1 as int, y1 as int);
    let ghost w = width as int;
    let ghost h = height as int;
    proof {
        assert(walk_error(gdx, gdy, 0, 0) == dx - dy);
    }
    loop
        invariant_except_break
            visible(all, w, h) == pixels@ + visible(
                walk_from(x0 as int, y0 as int, x1 as int, y1 as int, a, b),
                w,
                h,
            ),
        invariant
            w == width as int,
            h == height as int,
            gdx == span(x0 as int, x1 as int),
            gdy == span(y0 as int, y1 as int),
            dx == gdx,
            dy == gdy,
            0 <= dx <= u32::MAX,
            0 <= dy <= u32::MAX,
            sx == (if x0 < x1 { 1int } else { -1int }),
            sy == (if y0 < y1 { 1int } else { -1int }),
            0 <= a <= dx,
            0 <= b <= dy,
            x == advance(x0 as int, x1 as int, a),
            y == advance(y0 as int, y1 as int, b),
            err == walk_error(dx as int, dy as int, a, b),
            -2 * dy <= err <= 2 * dx,
            all == line_points(x0 as int, y0 as int, x1 as int, y1 as int),
        ensures
            pixels@ == visible(all, w, h),
        decreases dx - a + dy - b,
    {
        let ghost rest = walk_from(x0 as int, y0 as int, x1 as int, y1 as int, a, b);
        let ghost here = (x as int, y as int);
        proof {
            lemma_walk_unfold(x0 as int, y0 as int, x1 as int, y1 as int, a, b);
        }
        assert(rest[0] == here);
        let ghost tail = visible(rest.drop_first(), w, h);
        assert(visible(rest, w, h) == (if on_canvas(here, w, h) {
            seq![(x as u32, y as u32)] + tail
        } else {
            tail
        }));
        let ghost old_pixels = pixels@;
        if x >= 0 && y >= 0 && x < width as i64 && y < height as i64 {
            pixels.push((x as u32, y as u32));
            assert(pixels@ + tail =~= old_pixels + (seq![(x as u32, y as u32)] + tail));
        } else {
            assert(visible(rest, w, h) == tail);
        }
        assert(visible(all, w, h) == pixels@ + tail);
        if x == x1 as i64 && y == y1 as i64 {
            proof {
                assert(a == dx && b == dy);
                assert(rest.drop_first() =~= Seq::<(int, int)>::empty());
                assert(tail =~= Seq::<(u32, u32)>::empty());
                assert(pixels@ =~= visible(all, w, h));
            }
            break;
        }
        proof {
            lemma_walk_step(dx as int, dy as int, a, b);
        }
        let e2 = 2 * err;
        let ghost na = if steps_x(dx as int, dy as int, a, b) {
            a + 1
        } else {
            a
        };
        let ghost nb = if steps_y(dx as int, dy as int, a, b) {
            b + 1
        } else {
            b
        };
        if e2 >= -dy {
            err = err - dy;
            x = x + sx;
        }
        if e2 <= dx {
            err = err + dx;
            y = y + sy;
        }
        proof {
            lemma_walk_error_steps(dx as int, dy as int, a, b);
            assert(rest.drop_first() =~= walk_from(x0 as int, y0 as int, x1 as int, y1 as int, na, nb));
            assert(pixels@ + visible(rest.drop_first(), w, h) =~= visible(all, w, h));
            a = na;
            b = nb;
        }
    }
    pixels
}

/// The direction in which a coordinate moves from `from` towards `to`.
pub open spec fn direction(from: int, to: int) -> int {
    if from < to {
        1
    } else {
        -1
    }
}

/// `q` follows `p` on a line from `(x0, y0)` to `(x1, y1)`: each coordinate stays or moves
/// by one towards its end, and at least one of them moves.
pub open spec fn is_unit_step(p: (int, int), q: (int, int), x0: int, y0: int, x1: int, y1: int) -> bool {
    &&& (q.0 == p.0 || q.0 == p.0 + direction(x0, x1))
    &&& (q.1 == p.1 || q.1 == p.1 + direction(y0, y1))
    &&& q != p
}

/// The walk from any state within bounds ends at the end point and moves by unit steps.
proof fn lemma_walk_shape(x0: int, y0: int, x1: int, y1: int, a: int, b: int)
    requires
        0 <= a <= span(x0, x1),
        0 <= b <= span(y0, y1),
    ensures
        walk_from(x0, y0, x1, y1, a, b).len() >= 1,
        walk_from(x0, y0, x1, y1, a, b).last() == (x1, y1),
        forall|k: int|
            0 <= k < walk_from(x0, y0, x1, y1, a, b).len() - 1 ==> is_unit_step(
                #[trigger] walk_from(x0, y0, x1, y1, a, b)[k],
                walk_from(x0, y0, x1, y1, a, b)[k + 1],
                x0,
                y0,
                x1,
                y1,
            ),
    decreases span(x0, x1) - a + span(y0, y1) - b,
{
    let dx = span(x0, x1);
    let dy = span(y0, y1);
    lemma_walk_unfold(x0, y0, x1, y1, a, b);
    let walk = walk_from(x0, y0, x1, y1, a, b);
    if !(a == dx && b == dy) {
        lemma_walk_step(dx, dy, a, b);
        let na = if steps_x(dx, dy, a, b) {
            a + 1
        } else {
            a
        };
        let nb = if steps_y(dx, dy, a, b) {
            b + 1
        } else {
            b
        };
        lemma_walk_shape(x0, y0, x1, y1, na, nb);
        lemma_walk_unfold(x0, y0, x1, y1, na, nb);
        let rest = walk_from(x0, y0, x1, y1, na, nb);
        assert(walk =~= seq![walk[0]] + rest);
        assert forall|k: int| 0 <= k < walk.len() - 1 implies is_unit_step(
            #[trigger] walk[k],
            walk[k + 1],
            x0,
            y0,
            x1,
            y1,
        ) by {
            if k > 0 {
                assert(walk[k] == rest[k - 1]);
                assert(walk[k + 1] == rest[k]);
            }
        }
    }
}

/// A drawn line starts at its first end point, ends at its second, and each point follows
/// the previous one by a unit step towards the end.
pub proof fn lemma_line_connects_endpoints(x0: int, y0: int, x1: int, y1: int)
    ensures
        line_points(x0, y0, x1, y1).len() >= 1,
        line_points(x0, y0, x1, y1)[0] == (x0, y0),
        line_points(x0, y0, x1, y1).last() == (x1, y1),
        forall|k: int|
            0 <= k < line_points(x0, y0, x1, y1).len() - 1 ==> is_unit_step(
                #[trigger] line_points(x0, y0, x1, y1)[k],
                line_points(x0, y0, x1, y1)[k + 1],
                x0,
                y0,
                x1,
                y1,
            ),
{
    lemma_walk_unfold(x0, y0, x1, y1, 0, 0);
    lemma_walk_shape(x0, y0, x1, y1, 0, 0);
}

/// When the line is at least as wide as tall, every step moves horizontally, so from a
/// reachable state the rest of the walk has one point per remaining column.
proof fn lemma_walk_len_wide(x0: int, y0: int, x1: int, y1: int, a: int, b: int)
    requires
        span(y0, y1) <= span(x0, x1),
        0 <= a <= span(x0, x1),
        0 <= b <= span(y0, y1),
        2 * walk_error(span(x0, x1), span(y0, y1), a, b) >= -span(y0, y1),
    ensures
        walk_from(x0, y0, x1, y1, a, b).len() == span(x0, x1) - a + 1,
    decreases span(x0, x1) - a + span(y0, y1) - b,
{
    let dx = span(x0, x1);
    let dy = span(y0, y1);
    lemma_walk_unfold(x0, y0, x1, y1, a, b);
    if !(a == dx && b == dy) {
        lemma_walk_step(dx, dy, a, b);
        lemma_walk_error_steps(dx, dy, a, b);
        let nb = if steps_y(dx, dy, a, b) {
            b + 1
        } else {
            b
        };
        lemma_walk_len_wide(x0, y0, x1, y1, a + 1, nb);
    }
}

/// When the line is at least as tall as wide, every step moves vertically.
proof fn lemma_walk_len_tall(x0: int, y0: int, x1: int, y1: int, a: int, b: int)
    requires
        span(x0, x1) <= span(y0, y1),
        0 <= a <= span(x0, x1),
        0 <= b <= span(y0, y1),
        2 * walk_error(span(x0, x1), span(y0, y1), a, b) <= span(x0, x1),
    ensures
        walk_from(x0, y0, x1, y1, a, b).len() == span(y0, y1) - b + 1,
    decreases span(x0, x1) - a + span(y0, y1) - b,
{
    let dx = span(x0, x1);
    let dy = span(y0, y1);
    lemma_walk_unfold(x0, y0, x1, y1, a, b);
    if !(a == dx && b == dy) {
        lemma_walk_step(dx, dy, a, b);
        lemma_walk_error_steps(dx, dy, a, b);
        let na = if steps_x(dx, dy, a, b) {
            a + 1
        } else {
            a
        };
        lemma_walk_len_tall(x0, y0, x1, y1, na, b + 1);
    }
}

/// A drawn line has one point per column or per row, whichever it spans more of.
pub proof fn lemma_line_length(x0: int, y0: int, x1: int, y1: int)
    ensures
        line_points(x0, y0, x1, y1).len() == (if span(x0, x1) >= span(y0, y1) {
            span(x0, x1)
        } else {
            span(y0, y1)
        }) + 1,
{
    let dx = span(x0, x1);
    let dy = span(y0, y1);
    assert(walk_error(dx, dy, 0, 0) == dx - dy);
    if dx >= dy {
        lemma_walk_len_wide(x0, y0, x1, y1, 0, 0);
    } else {
        lemma_walk_len_tall(x0, y0, x1, y1, 0, 0);
    }
}

/// The pixel at column `x` and row `y` of a row-major image `width` pixels wide.
pub open spec fn pixel_at<T>(pixels: Seq<T>, width: int, x: int, y: int) -> T {
    pixels[y * width + x]
}

/// Positions on a grid have distinct indices within the grid.
proof fn lemma_grid_index(x: int, y: int, width: int, height: int)
    requires
        0 <= x < width,
        0 <= y < height,
    ensures
        0 <= y * width + x < width * height,
{
    assert(0 <= y * width + x < width * height) by (nonlinear_arith)
        requires
            0 <= x < width,
            0 <= y < height,
    ;
}

proof fn lemma_grid_injective(x: int, y: int, x2: int, y2: int, width: int)
    requires
        0 <= x < width,
        0 <= x2 < width,
        0 <= y,
        0 <= y2,
        y * width + x == y2 * width + x2,
    ensures
        x == x2,
        y == y2,
{
    if y < y2 {
        assert(y * width + x < y2 * width + x2) by (nonlinear_arith)
            requires
                0 <= x < width,
                0 <= x2,
                y < y2,
        ;
    } else if y2 < y {
        assert(y2 * width + x2 < y * width + x) by (nonlinear_arith)
            requires
                0 <= x2 < width,
                0 <= x,
                y2 < y,
        ;
    }
}

/// Every pixel of a visible selection lies on the canvas.
proof fn lemma_visible_on_canvas(points: Seq<(int, int)>, width: int, height: int)
    requires
        0 <= width <= u32::MAX,
        0 <= height <= u32::MAX,
    ensures
        forall|i: int|
            0 <= i < visible(points, width, height).len() ==> #[trigger] visible(points, width, height)[i].0
                < width && visible(points, width, height)[i].1 < height,
    decreases points.len(),
{
    if points.len() > 0 {
        let rest = visible(points.drop_first(), width, height);
        lemma_visible_on_canvas(points.drop_first(), width, height);
        if on_canvas(points[0], width, height) {
            let head = (points[0].0 as u32, points[0].1 as u32);
            assert(head.0 < width && head.1 < height);
            assert forall|i: int| 0 <= i < visible(points, width, height).len() implies #[trigger] visible(
                points,
                width,
                height,
            )[i].0 < width && visible(points, width, height)[i].1 < height by {
                if i > 0 {
                    assert(visible(points, width, height)[i] == rest[i - 1]);
                }
            }
        }
    }
}

/// Row-major `r, g, b` bytes read as pixels, three bytes to a pixel; a trailing partial pixel
/// is left out.
pub open spec fn rgb_triples(bytes: Seq<u8>) -> Seq<(u8, u8, u8)> {
    Seq::new(bytes.len() / 3, |i: int| (bytes[3 * i], bytes[3 * i + 1], bytes[3 * i + 2]))
}

/// Pixels written out as row-major `r, g, b` bytes.
pub open spec fn rgb_flattened(pixels: Seq<(u8, u8, u8)>) -> Seq<u8> {
    Seq::new(
        3 * pixels.len(),
        |j: int|
            if j % 3 == 0 {
                pixels[j / 3].0
            } else if j % 3 == 1 {
                pixels[j / 3].1
            } else {
                pixels[j / 3].2
            },
    )
}

/// Reads row-major `r, g, b` bytes as pixels.
pub fn rgb_pixels(bytes: &[u8]) -> (p: Vec<(u8, u8, u8)>)
    ensures
        p@ == rgb_triples(bytes@),
{
    let len = bytes.len();
    let count = len / 3;
    let mut p: Vec<(u8, u8, u8)> = Vec::new();
    for i in 0..count
        invariant
            len == bytes@.len(),
            count == len / 3,
            p@.len() == i,
            forall|k: int| 0 <= k < i ==> #[trigger] p@[k] == rgb_triples(bytes@)[k],
    {
        p.push((bytes[3 * i], bytes[3 * i + 1], bytes[3 * i + 2]));
    }
    assert(p@ =~= rgb_triples(bytes@));
    p
}

/// An RGB drawing surface: `width * height` pixels, row-major.
pub struct RgbCanvas {
    width: u32,
    height: u32,
    pixels: Vec<(u8, u8, u8)>,
}

impl RgbCanvas {
    /// The canvas holds one pixel per position.
    #[verifier::type_invariant]
    spec fn well_formed(self) -> bool {
        self.pixels@.len() == self.width * self.height
    }

    /// The width in pixels.
    pub closed spec fn width_view(self) -> u32 {
        self.width
    }

    /// The height in pixels.
    pub closed spec fn height_view(self) -> u32 {
        self.height
    }

    /// The pixels, row-major.
    pub closed spec fn pixels_view(self) -> Seq<(u8, u8, u8)> {
        self.pixels@
    }

    /// A black canvas.
    pub fn new(width: u32, height: u32) -> (c: RgbCanvas)
        requires
            width * height <= usize::MAX,
        ensures
            c.width_view() == width,
            c.height_view() == height,
            c.pixels_view().len() == width * height,
            forall|i: int| 0 <= i < width * height ==> #[trigger] c.pixels_view()[i] == (0u8, 0u8, 0u8),
    {
        let n = width as usize * height as usize;
        let mut pixels: Vec<(u8, u8, u8)> = Vec::new();
        for i in 0..n
            invariant
                pixels@.len() == i,
                forall|k: int| 0 <= k < i ==> #[trigger] pixels@[k] == (0u8, 0u8, 0u8),
        {
            pixels.push((0, 0, 0));
        }
        RgbCanvas { width, height, pixels }
    }

    /// The pixels, row-major.
    pub fn pixels(&self) -> (p: &[(u8, u8, u8)])
        ensures
            p@ == self.pixels_view(),
            p@.len() == self.width_view() * self.height_view(),
    {
        proof {
            use_type_invariant(self);
        }
        self.pixels.as_slice()
    }

    /// Copies an image onto the canvas with its top-left corner at `(left, top)`. The image
    /// must lie within the canvas.
    pub fn blit(&mut self, image_width: u32, image_height: u32, image: &[(u8, u8, u8)], left: u32, top: u32)
        requires
            image@.len() == image_width * image_height,
            left + image_width <= old(self).width_view() as int,
            top + image_height <= old(self).height_view(),
        ensures
            final(self).width_view() == old(self).width_view() as int,
            final(self).height_view() == old(self).height_view(),
            final(self).pixels_view().len() == old(self).width_view() * old(self).height_view(),
            forall|x: int, y: int|
                0 <= x < old(self).width_view() && 0 <= y < old(self).height_view() ==> #[trigger] pixel_at(
                    final(self).pixels_view(),
                    old(self).width_view() as int,
                    x,
                    y,
                ) == if left <= x < left + image_width && top <= y < top + image_height {
                    pixel_at(image@, image_width as int, x - left, y - top)
                } else {
                    pixel_at(old(self).pixels_view(), old(self).width_view() as int, x, y)
                },
    {
        proof {
            use_type_invariant(&*self);
        }
        let mut taken = RgbCanvas { width: 0, height: 0, pixels: Vec::new() };
        core::mem::swap(&mut taken, self);
        proof {
            use_type_invariant(&taken);
        }
        let RgbCanvas { width: w, height: h, mut pixels } = taken;
        let ghost before = pixels@;
        let ghost wi = w as int;
        let ghost iw = image_width as int;
        let n: usize = pixels.len();
        let m: usize = image.len();
        for r in 0..image_height
            invariant
                n == w * h,
                m == image_width * image_height,
                pixels@.len() == w * h,
                before.len() == w * h,
                image@.len() == image_width * image_height,
                left + image_width <= w,
                top + image_height <= h,
                wi == w,
                iw == image_width,
                forall|x: int, y: int|
                    0 <= x < w && 0 <= y < h ==> #[trigger] pixel_at(pixels@, wi, x, y) == if left
                        <= x < left + image_width && top <= y < top + r {
                        pixel_at(image@, iw, x - left, y - top)
                    } else {
                        pixel_at(before, wi, x, y)
                    },
        {
            for c in 0..image_width
                invariant
                    n == w * h,
                    m == image_width * image_height,
                    pixels@.len() == w * h,
                    before.len() == w * h,
                    image@.len() == image_width * image_height,
                    left + image_width <= w,
                    top + image_height <= h,
                    wi == w,
                    iw == image_width,
                    r < image_height,
                    forall|x: int, y: int|
                        0 <= x < w && 0 <= y < h ==> #[trigger] pixel_at(pixels@, wi, x, y) == if left
                            <= x < left + image_width && top <= y < top + r + 1 && (y < top + r || x
                            < left + c) {
                            pixel_at(image@, iw, x - left, y - top)
                        } else {
                            pixel_at(before, wi, x, y)
                        },
            {
                let ghost prev = pixels@;
                proof {
                    lemma_grid_index((left + c) as int, (top + r) as int, w as int, h as int);
                    lemma_grid_index(c as int, r as int, image_width as int, image_height as int);
                }
                let target = (top + r) as usize * w as usize + (left + c) as usize;
                let source = r as usize * image_width as usize + c as usize;
                pixels.set(target, image[source]);
                assert forall|x: int, y: int| 0 <= x < w && 0 <= y < h implies #[trigger] pixel_at(
                    pixels@,
                    wi,
                    x,
                    y,
                ) == if left <= x < left + image_width && top <= y < top + r + 1 && (y < top + r
                    || x < left + c + 1) {
                    pixel_at(image@, iw, x - left, y - top)
                } else {
                    pixel_at(before, wi, x, y)
                } by {
                    if x == left + c && y == top + r {
                    } else {
                        lemma_grid_index(x, y, wi, h as int);
                        if y * wi + x == target {
                            lemma_grid_injective(x, y, (left + c) as int, (top + r) as int, wi);
                        }
                        assert(pixel_at(pixels@, wi, x, y) == pixel_at(prev, wi, x, y));
                    }
                }
            }
        }
        *self = RgbCanvas { width: w, height: h, pixels };
    }

    /// Draws the line from `(x0, y0)` to `(x1, y1)` in `color`: every pixel that the line
    /// covers on the canvas takes the colour, every other pixel keeps its own.
    pub fn draw_line(&mut self, x0: i32, y0: i32, x1: i32, y1: i32, color: (u8, u8, u8))
        requires
        ensures
            final(self).width_view() == old(self).width_view() as int,
            final(self).height_view() == old(self).height_view(),
            final(self).pixels_view().len() == old(self).width_view() * old(self).height_view(),
            forall|x: int, y: int|
                0 <= x < old(self).width_view() && 0 <= y < old(self).height_view() ==> #[trigger] pixel_at(
                    final(self).pixels_view(),
                    old(self).width_view() as int,
                    x,
                    y,
                ) == if visible(
                    line_points(x0 as int, y0 as int, x1 as int, y1 as int),
                    old(self).width_view() as int,
                    old(self).height_view() as int,
                ).contains((x as u32, y as u32)) {
                    color
                } else {
                    pixel_at(old(self).pixels_view(), old(self).width_view() as int, x, y)
                },
    {
        proof {
            use_type_invariant(&*self);
        }
        let mut taken = RgbCanvas { width: 0, height: 0, pixels: Vec::new() };
        core::mem::swap(&mut taken, self);
        proof {
            use_type_invariant(&taken);
        }
        let RgbCanvas { width: w, height: h, mut pixels } = taken;
        let ghost before = pixels@;
        let ghost wi = w as int;
        let n: usize = pixels.len();
        let points = line_pixels(x0, y0, x1, y1, w, h);
        proof {
            lemma_visible_on_canvas(line_points(x0 as int, y0 as int, x1 as int, y1 as int), w as int, h as int);
        }
        for k in 0..points.len()
            invariant
                n == w * h,
                pixels@.len() == w * h,
                before.len() == w * h,
                wi == w,
                forall|i: int| 0 <= i < points@.len() ==> #[trigger] points@[i].0 < w && points@[i].1 < h,
                forall|x: int, y: int|
                    0 <= x < w && 0 <= y < h ==> #[trigger] pixel_at(pixels@, wi, x, y) == if points@.take(
                        k as int,
                    ).contains((x as u32, y as u32)) {
                        color
                    } else {
                        pixel_at(before, wi, x, y)
                    },
        {
            let ghost prev = pixels@;
            let (px, py) = points[k];
            proof {
                lemma_grid_index(px as int, py as int, w as int, h as int);
                assert(points@.take(k + 1) =~= points@.take(k as int).push((px, py)));
            }
            let target = py as usize * w as usize + px as usize;
            pixels.set(target, color);
            assert forall|x: int, y: int| 0 <= x < w && 0 <= y < h implies #[trigger] pixel_at(
                pixels@,
                wi,
                x,
                y,
            ) == if points@.take(k + 1).contains((x as u32, y as u32)) {
                color
            } else {
                pixel_at(before, wi, x, y)
            } by {
                let q = (x as u32, y as u32);
                if x == px && y == py {
                    assert(points@.take(k + 1)[k as int] == q);
                } else {
                    lemma_grid_index(x, y, wi, h as int);
                    if y * wi + x == target {
                        lemma_grid_injective(x, y, px as int, py as int, wi);
                    }
                    assert(pixel_at(pixels@, wi, x, y) == pixel_at(prev, wi, x, y));
                    assert(points@.take(k + 1).contains(q) == points@.take(k as int).contains(q)) by {
                        if points@.take(k + 1).contains(q) {
                            let j = choose|j: int| 0 <= j < k + 1 && #[trigger] points@.take(k + 1)[j] == q;
                            assert(j != k);
                            assert(points@.take(k as int)[j] == q);
                        }
                        if points@.take(k as int).contains(q) {
                            let j = choose|j: int| 0 <= j < k && #[trigger] points@.take(k as int)[j] == q;
                            assert(points@.take(k + 1)[j] == q);
                        }
                    }
                }
            }
        }
        proof {
            assert(points@.take(points@.len() as int) =~= points@);
        }
        *self = RgbCanvas { width: w, height: h, pixels };
    }

    /// The pixels as row-major `r, g, b` bytes.
    pub fn rgb_bytes(&self) -> (b: Vec<u8>)
        ensures
            b@ == rgb_flattened(self.pixels_view()),
            b@.len() == 3 * (self.width_view() * self.height_view()),
    {
        proof {
            use_type_invariant(self);
        }
        let n = self.pixels.len();
        let mut b: Vec<u8> = Vec::new();
        for i in 0..n
            invariant
                n == self.pixels@.len(),
                b@.len() == 3 * i,
                forall|j: int| 0 <= j < 3 * i ==> #[trigger] b@[j] == rgb_flattened(self.pixels@)[j],
        {
            let (r, g, bl) = self.pixels[i];
            b.push(r);
            b.push(g);
            b.push(bl);
            assert forall|j: int| 0 <= j < 3 * (i + 1) implies #[trigger] b@[j] == rgb_flattened(
                self.pixels@,
            )[j] by {
                if j >= 3 * i {
                    assert(j / 3 == i as int);
                }
            }
        }
        assert(b@ =~= rgb_flattened(self.pixels@));
        b
    }
}

} // verus!
