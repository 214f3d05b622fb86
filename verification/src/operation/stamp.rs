//! The [`Stamp`] applies an [`Image`] using provided action.
use vstd::prelude::*;

use crate::image::{within, Dimensions, Image, ImageMut};
use crate::operation::Operation;
use crate::painter::{
    changed_by, drawing_position, lemma_painted_change, lemma_painted_nothing, lemma_painted_same, lemma_painted_union,
    painted, strategy_change, DrawRegion, Painter,
};
use crate::strategy::Strategy;

verus! {

/// The stamping operation to apply an [`Image`] over some painter.
///
/// Each pixel of the stamp is combined with the pixel under it by the
/// `action`.
pub struct Stamp<'a, I, F> {
    position: (i32, i32),
    stamp: &'a I,
    action: &'a F,
}

/// The strategy that combines a pixel with a given stamp pixel.
pub struct WithSource<'a, F, S> {
    /// The action computing the new pixel from the previous one and the stamp
    /// pixel.
    pub action: &'a F,
    /// The stamp pixel.
    pub source: S,
}

impl<'a, P, S: Copy, F: Fn(P, S) -> P> Strategy<P> for WithSource<'a, F, S> {
    open spec fn ready(&self) -> bool {
        forall|p: P| call_requires(*self.action, (p, self.source))
    }

    open spec fn spec_produces(&self, before: P, after: P) -> bool {
        call_ensures(*self.action, (before, self.source), after)
    }

    fn produce(&self, before: P) -> (after: P) {
        (self.action)(before, self.source)
    }
}

impl<'a, I, F> Stamp<'a, I, F> {
    /// Where the stamp's top-left pixel lands.
    pub closed spec fn spec_position(&self) -> (i32, i32) {
        self.position
    }

    /// The stamped image.
    pub closed spec fn spec_stamp(&self) -> I {
        *self.stamp
    }

    /// The action combining pixels.
    pub closed spec fn spec_action(&self) -> F {
        *self.action
    }

    /// Create new instance for stamping provided `stamp` over the painter.
    pub fn new<P>(position: (i32, i32), stamp: &'a I, action: &'a F) -> (result: Self)
        where
            I: Image,
            F: Fn(P, I::Pixel) -> P,
        ensures
            result.spec_position() == position,
            result.spec_stamp() == *stamp,
            result.spec_action() == *action,
    {
        Self { position, stamp, action }
    }
}

/// The stamp position that lands on the drawing position `p` when the stamp
/// is put at `position`; `None` where there is none.
pub open spec fn stamp_position(position: (i32, i32), p: (int, int)) -> Option<(u32, u32)> {
    let x = p.0 - position.0;
    let y = p.1 - position.1;
    if 0 <= x <= u32::MAX && 0 <= y <= u32::MAX {
        Some((x as u32, y as u32))
    } else {
        None
    }
}

/// The stamp pixel that lands on the drawing position `p`.
pub open spec fn stamp_pixel_at<I: Image>(stamp: I, position: (i32, i32), p: (int, int)) -> Option<I::Pixel> {
    match stamp_position(position, p) {
        Some(s) => stamp.spec_pixel(s),
        None => None,
    }
}

/// The change that stamping makes at the drawing position `p`: the pixel is
/// combined with the stamp pixel landing there.
pub open spec fn stamp_change<I: Image, P, F: Fn(P, I::Pixel) -> P>(
    stamp: I,
    position: (i32, i32),
    action: F,
) -> spec_fn((int, int), P, P) -> bool {
    |p: (int, int), b: P, a: P| call_ensures(action, (b, stamp_pixel_at(stamp, position, p).unwrap()), a)
}

/// How far, along one axis, the stamp of `length` pixels put at `position`
/// is drawn in a draw zone that starts at `origin` and spans `room`: up to
/// its own end or the zone's, whichever comes first.
pub open spec fn stamp_reach(length: u32, position: int, origin: int, room: u32) -> int {
    let free = saturate_u32(room - (position - origin));
    if length <= free {
        length as int
    } else {
        free as int
    }
}

/// `value` kept within `0 ..= u32::MAX`.
pub open spec fn saturate_u32(value: int) -> u32 {
    if value < 0 {
        0
    } else if value > u32::MAX {
        u32::MAX
    } else {
        value as u32
    }
}

/// What [`Stamp`] asks of a painter and what it draws, as its [`Operation`]
/// impl states: callers whose closure types keep the impl from being picked
/// at the call site learn both from here.
pub proof fn lemma_stamp_contract<'a, T, I, F>(op: Stamp<'a, I, F>)
    where
        I: Image,
        I::Pixel: Copy,
        T: ImageMut<WithSource<'a, F, I::Pixel>>,
        F: Fn(T::Pixel, I::Pixel) -> T::Pixel,
    ensures
        forall|before: Painter<T>| #[trigger] op.spec_can_draw(before) == {
            let (width, height) = op.spec_stamp().spec_dimensions();
            &&& forall|b: T::Pixel, s: I::Pixel| call_requires(op.spec_action(), (b, s))
            &&& before.spec_offset().0 != i32::MIN
            &&& before.spec_offset().1 != i32::MIN
            &&& op.spec_position().0 + stamp_reach(
                width,
                op.spec_position().0 as int,
                -before.spec_offset().0,
                before.spec_target().spec_dimensions().0,
            ) <= i32::MAX + 1
            &&& op.spec_position().1 + stamp_reach(
                height,
                op.spec_position().1 as int,
                -before.spec_offset().1,
                before.spec_target().spec_dimensions().1,
            ) <= i32::MAX + 1
        },
        forall|before: Painter<T>, after: Painter<T>| #[trigger] op.spec_draws(before, after) == {
            painted(
                before,
                after,
                |p: (int, int)| stamp_pixel_at(op.spec_stamp(), op.spec_position(), p) is Some,
                stamp_change(op.spec_stamp(), op.spec_position(), op.spec_action()),
            )
        },
{
}

impl<'a, T, I, F> Operation<T> for Stamp<'a, I, F> where
    I: Image,
    I::Pixel: Copy,
    T: ImageMut<WithSource<'a, F, I::Pixel>>,
    F: Fn(T::Pixel, I::Pixel) -> T::Pixel,
 {
    type Output = ();

    open spec fn spec_can_draw(&self, painter: Painter<T>) -> bool {
        let (width, height) = self.spec_stamp().spec_dimensions();
        &&& forall|b: T::Pixel, s: I::Pixel| call_requires(self.spec_action(), (b, s))
        &&& painter.spec_offset().0 != i32::MIN
        &&& painter.spec_offset().1 != i32::MIN
        &&& self.spec_position().0 + stamp_reach(
            width,
            self.spec_position().0 as int,
            -painter.spec_offset().0,
            painter.spec_target().spec_dimensions().0,
        ) <= i32::MAX + 1
        &&& self.spec_position().1 + stamp_reach(
            height,
            self.spec_position().1 as int,
            -painter.spec_offset().1,
            painter.spec_target().spec_dimensions().1,
        ) <= i32::MAX + 1
    }

    open spec fn spec_draws(&self, before: Painter<T>, after: Painter<T>) -> bool {
        painted(
            before,
            after,
            |p: (int, int)| stamp_pixel_at(self.spec_stamp(), self.spec_position(), p) is Some,
            stamp_change(self.spec_stamp(), self.spec_position(), self.spec_action()),
        )
    }

    fn draw_on(self, region: &mut DrawRegion<'_, T>) -> (output: ()) {
        let ((draw_x, draw_y), (draw_width, draw_height)) = region.draw_zone();
        let ghost before = region.spec_painter();
        let ghost stamp = self.spec_stamp();
        let ghost change = stamp_change(self.spec_stamp(), self.spec_position(), self.spec_action());

        let (x, y) = self.position;
        let (stamp_width, stamp_height) = self.stamp.dimensions();

        let start_x: u32 = if x < draw_x { (draw_x as i64 - x as i64) as u32 } else { 0 };
        let start_y: u32 = if y < draw_y { (draw_y as i64 - y as i64) as u32 } else { 0 };
        let room_x = saturate(draw_width as i64 - (x as i64 - draw_x as i64));
        let room_y = saturate(draw_height as i64 - (y as i64 - draw_y as i64));
        let end_x = if stamp_width <= room_x { stamp_width } else { room_x };
        let end_y = if stamp_height <= room_y { stamp_height } else { room_y };

        let ghost in_box = |p: (int, int)| {
            &&& start_x <= p.0 - x < end_x
            &&& start_y <= p.1 - y < end_y
        };
        let ghost drawn = |p: (int, int)| stamp_pixel_at(stamp, self.position, p) is Some;

        let mut stamp_y = start_y;
        proof {
            lemma_painted_nothing(
                before,
                |p: (int, int)| in_box(p) && drawn(p) && p.1 - y < stamp_y,
                change,
            );
        }
        while stamp_y < end_y
            invariant
                start_y <= stamp_y,
                stamp_y <= end_y || stamp_y == start_y,
                end_x <= stamp_width,
                end_y <= stamp_height,
                (stamp_width, stamp_height) == stamp.spec_dimensions(),
                stamp == self.spec_stamp(),
                (x, y) == self.spec_position(),
                x + end_x <= i32::MAX + 1,
                y + end_y <= i32::MAX + 1,
                draw_x <= x + start_x,
                draw_y <= y + start_y,
                forall|b: T::Pixel, s: I::Pixel| call_requires(self.spec_action(), (b, s)),
                change == stamp_change(self.spec_stamp(), self.spec_position(), self.spec_action()),
                in_box == (|p: (int, int)| start_x <= p.0 - x < end_x && start_y <= p.1 - y < end_y),
                drawn == (|p: (int, int)| stamp_pixel_at(stamp, self.position, p) is Some),
                *final(region.painter) == *final(old(region).painter),
                before == old(region).spec_painter(),
                painted(before, region.spec_painter(), |p: (int, int)| in_box(p) && drawn(p) && p.1 - y < stamp_y, change),
            decreases end_y - stamp_y,
        {
            let target_y = (y as i64 + stamp_y as i64) as i32;
            let mut stamp_x = start_x;
            proof {
                lemma_painted_same(
                    before,
                    region.spec_painter(),
                    |p: (int, int)| in_box(p) && drawn(p) && p.1 - y < stamp_y,
                    |p: (int, int)| in_box(p) && drawn(p) && (p.1 - y < stamp_y || (p.1 - y == stamp_y && p.0 - x < stamp_x)),
                    change,
                );
            }
            while stamp_x < end_x
                invariant
                    start_x <= stamp_x,
                    stamp_x <= end_x || stamp_x == start_x,
                    start_y <= stamp_y < end_y,
                    target_y == y + stamp_y,
                    end_x <= stamp_width,
                    end_y <= stamp_height,
                    (stamp_width, stamp_height) == stamp.spec_dimensions(),
                    stamp == self.spec_stamp(),
                    (x, y) == self.spec_position(),
                    x + end_x <= i32::MAX + 1,
                    y + end_y <= i32::MAX + 1,
                    draw_x <= x + start_x,
                    forall|b: T::Pixel, s: I::Pixel| call_requires(self.spec_action(), (b, s)),
                    change == stamp_change(self.spec_stamp(), self.spec_position(), self.spec_action()),
                    in_box == (|p: (int, int)| start_x <= p.0 - x < end_x && start_y <= p.1 - y < end_y),
                    drawn == (|p: (int, int)| stamp_pixel_at(stamp, self.position, p) is Some),
                    *final(region.painter) == *final(old(region).painter),
                    before == old(region).spec_painter(),
                    painted(
                        before,
                        region.spec_painter(),
                        |p: (int, int)| in_box(p) && drawn(p) && (p.1 - y < stamp_y || (p.1 - y == stamp_y && p.0 - x < stamp_x)),
                        change,
                    ),
                decreases end_x - stamp_x,
            {
                let ghost middle = region.spec_painter();
                let ghost so_far = |p: (int, int)| in_box(p) && drawn(p) && (p.1 - y < stamp_y || (p.1 - y == stamp_y && p.0 - x < stamp_x));
                let ghost next = |p: (int, int)| in_box(p) && drawn(p) && (p.1 - y < stamp_y || (p.1 - y == stamp_y && p.0 - x < stamp_x + 1));
                let ghost here = ((x + stamp_x) as int, (y + stamp_y) as int);
                assert(stamp_position(self.position, here) == Some((stamp_x, stamp_y)));
                if let Some(stamp_pixel) = self.stamp.pixel((stamp_x, stamp_y)) {
                    let target_x = (x as i64 + stamp_x as i64) as i32;
                    let writer = WithSource { action: self.action, source: stamp_pixel };
                    assert(writer.action == self.spec_action());
                    assert(writer.ready());
                    region.pixel((target_x, target_y), &writer);
                    proof {
                        let at = |p: (int, int)| p == here;
                        lemma_painted_change(middle, region.spec_painter(), at, strategy_change(writer), change);
                        lemma_painted_union(before, middle, region.spec_painter(), so_far, at, next, change);
                    }
                } else {
                    proof {
                        lemma_painted_same(before, region.spec_painter(), so_far, next, change);
                    }
                }
                stamp_x = stamp_x + 1;
            }
            proof {
                lemma_painted_same(
                    before,
                    region.spec_painter(),
                    |p: (int, int)| in_box(p) && drawn(p) && (p.1 - y < stamp_y || (p.1 - y == stamp_y && p.0 - x < stamp_x)),
                    |p: (int, int)| in_box(p) && drawn(p) && p.1 - y < stamp_y + 1,
                    change,
                );
            }
            stamp_y = stamp_y + 1;
        }
        proof {
            let after = region.spec_painter();
            let offset = before.spec_offset();
            assert forall|q: (u32, u32)| {
                let p = drawing_position(offset, q);
                if drawn(p) {
                    changed_by(
                        before.spec_target().spec_pixel(q),
                        #[trigger] after.spec_target().spec_pixel(q),
                        |b: T::Pixel, a: T::Pixel| change(p, b, a),
                    )
                } else {
                    after.spec_target().spec_pixel(q) == before.spec_target().spec_pixel(q)
                }
            } by {
                let p = drawing_position(offset, q);
                if drawn(p) && !(in_box(p) && drawn(p) && p.1 - y < stamp_y) {
                    let s = stamp_position(self.position, p).unwrap();
                    stamp.lemma_pixel_within(s);
                    before.spec_target().lemma_pixel_within(q);
                    after.spec_target().lemma_pixel_within(q);
                }
            }
        }
    }
}

/// `value` kept within `0 ..= u32::MAX`.
fn saturate(value: i64) -> (r: u32)
    ensures
        r == saturate_u32(value as int),
{
    if value < 0 {
        0
    } else if value > u32::MAX as i64 {
        u32::MAX
    } else {
        value as u32
    }
}

} // verus!
