//! The canvas that a client paints on, and the palette it paints with.

use vstd::prelude::*;
use std::collections::HashMap;
use crate::world::{coord_key, coord_key_of, Color, Coord, Draw};

verus! {

broadcast use vstd::std_specs::hash::group_hash_axioms;

#[derive(Copy, Clone, Debug, PartialEq, Eq, Structural)]
pub enum PaintTool {
    Pen,
    Fill,
    Eraser,
}

/// The sixteen colours, in the order a palette shows them.
pub fn default_palette() -> (r: [Color; 16])
    ensures
        r@ == seq![
            Color::White,
            Color::Gray,
            Color::DarkGray,
            Color::Black,
            Color::Red,
            Color::LightRed,
            Color::Green,
            Color::LightGreen,
            Color::Blue,
            Color::LightBlue,
            Color::Yellow,
            Color::LightYellow,
            Color::Cyan,
            Color::LightCyan,
            Color::Magenta,
            Color::LightMagenta,
        ],
{
    [
        Color::White,
        Color::Gray,
        Color::DarkGray,
        Color::Black,
        Color::Red,
        Color::LightRed,
        Color::Green,
        Color::LightGreen,
        Color::Blue,
        Color::LightBlue,
        Color::Yellow,
        Color::LightYellow,
        Color::Cyan,
        Color::LightCyan,
        Color::Magenta,
        Color::LightMagenta,
    ]
}

/// The colours a player picks from, and the tool in hand.
#[derive(Clone, Debug)]
pub struct Palette {
    pub paint_tool: PaintTool,
    pub selected_color_index: usize,
    pub palette: [Color; 16],
}

impl Palette {
    pub open spec fn wf(&self) -> bool {
        self.selected_color_index < 16
    }

    /// A palette of the given colours, with the pen and the first colour.
    pub fn new(palette: [Color; 16]) -> (r: Self)
        ensures
            r.wf(),
            r.paint_tool == PaintTool::Pen,
            r.selected_color_index == 0,
            r.palette == palette,
    {
        Palette { paint_tool: PaintTool::Pen, selected_color_index: 0, palette }
    }

    pub fn selected_color(&self) -> (r: Color)
        requires
            self.wf(),
        ensures
            r == self.palette[self.selected_color_index as int],
    {
        self.palette[self.selected_color_index]
    }
}

/// `p` lies on a canvas of the given size.
pub open spec fn in_bounds(p: Coord, width: u16, height: u16) -> bool {
    p.0 < width && p.1 < height
}

/// The buffer after the points of `points` that lie on the canvas were
/// painted in `color`.
pub open spec fn painted_within(
    buffer: Map<u32, Color>,
    points: Seq<Coord>,
    color: Color,
    width: u16,
    height: u16,
) -> Map<u32, Color>
    decreases points.len(),
{
    if points.len() == 0 {
        buffer
    } else {
        let b = painted_within(buffer, points.drop_last(), color, width, height);
        if in_bounds(points.last(), width, height) {
            b.insert(coord_key(points.last()), color)
        } else {
            b
        }
    }
}

/// A canvas as a client holds it: its size, the colour of each painted
/// point, and how it is shown.
#[derive(Clone, Debug)]
pub struct TermCanvas {
    pub width: u16,
    pub height: u16,
    pub view_offset_x: u16,
    pub view_offset_y: u16,
    /// The colour of each painted point, under `coord_key` of the point.
    pub buffer: HashMap<u32, Color>,
    pub background_color: Option<Color>,
    pub should_show_grid: bool,
    pub is_ascii_mode: bool,
}

impl TermCanvas {
    /// `b` is `a` with at most its paint changed.
    pub open spec fn same_settings(a: TermCanvas, b: TermCanvas) -> bool {
        b == TermCanvas { buffer: b.buffer, ..a }
    }

    pub open spec fn painted(&self) -> Map<u32, Color> {
        self.buffer@
    }

    pub open spec fn grid(&self) -> bool {
        self.should_show_grid
    }

    pub open spec fn background(&self) -> Option<Color> {
        self.background_color
    }

    pub open spec fn offset(&self) -> (u16, u16) {
        (self.view_offset_x, self.view_offset_y)
    }

    /// A blank canvas of the given size.
    pub fn new(width: u16, height: u16) -> (r: Self)
        ensures
            r.width == width,
            r.height == height,
            r.painted() == Map::<u32, Color>::empty(),
            !r.grid(),
            r.background() is None,
            r.offset() == (0u16, 0u16),
    {
        TermCanvas {
            width,
            height,
            view_offset_x: 0,
            view_offset_y: 0,
            buffer: HashMap::new(),
            background_color: None,
            should_show_grid: false,
            is_ascii_mode: false,
        }
    }

    pub fn dimensions(&self) -> (r: Coord)
        ensures
            r == Coord(self.width, self.height),
    {
        Coord(self.width, self.height)
    }

    /// The colour of point `p`, where it was painted.
    pub fn color_at(&self, p: Coord) -> (r: Option<Color>)
        ensures
            r == (if self.painted().contains_key(coord_key(p)) {
                Some(self.painted()[coord_key(p)])
            } else {
                None
            }),
    {
        match self.buffer.get(&coord_key_of(p)) {
            Some(c) => Some(*c),
            None => None,
        }
    }

    /// Removes all paint.
    pub fn clear(&mut self)
        ensures
            final(self).painted() == Map::<u32, Color>::empty(),
            Self::same_settings(*old(self), *final(self)),
    {
        self.buffer.clear()
    }

    pub fn showing_grid(&self) -> (r: bool)
        ensures
            r == self.grid(),
    {
        self.should_show_grid
    }

    pub fn within_bounds(&self, p: &Coord) -> (r: bool)
        ensures
            r == in_bounds(*p, self.width, self.height),
    {
        p.0 < self.width && p.1 < self.height
    }

    pub fn toggle_grid(&mut self)
        ensures
            *final(self) == (TermCanvas { should_show_grid: !old(self).should_show_grid, ..*old(self) }),
    {
        self.should_show_grid = !self.should_show_grid;
    }

    /// Takes the size `size`, and shows the canvas from its corner.
    pub fn resize_canvas(&mut self, size: Coord)
        ensures
            *final(self) == (TermCanvas {
                width: size.0,
                height: size.1,
                view_offset_x: 0,
                view_offset_y: 0,
                ..*old(self)
            }),
    {
        self.width = size.0;
        self.height = size.1;
        self.view_offset_x = 0;
        self.view_offset_y = 0;
    }

    /// The same canvas on the background colour `bg`.
    pub fn bg(self, bg: Color) -> (r: Self)
        ensures
            r == (TermCanvas { background_color: Some(bg), ..self }),
    {
        let mut c = self;
        c.background_color = Some(bg);
        c
    }

    /// Applies a draw action; paint outside the canvas is dropped.
    pub fn draw(&mut self, draw_action: Draw)
        ensures
            Self::same_settings(*old(self), *final(self)),
            final(self).painted() == match draw_action {
                Draw::Clear => Map::empty(),
                Draw::Erase(p) => old(self).painted().remove(coord_key(p)),
                Draw::Paint { points, color } => painted_within(
                    old(self).painted(),
                    points@,
                    color,
                    old(self).width,
                    old(self).height,
                ),
            },
    {
        match draw_action {
            Draw::Clear => self.clear(),
            Draw::Erase(point) => self.erase(point),
            Draw::Paint { points, color } => self.paint(&points, color),
        }
    }

    /// Removes the paint of `point`.
    pub fn erase(&mut self, point: Coord)
        ensures
            final(self).painted() == old(self).painted().remove(coord_key(point)),
            Self::same_settings(*old(self), *final(self)),
    {
        self.buffer.remove(&coord_key_of(point));
    }

    /// Paints in `color` every point of `points` that lies on the canvas.
    pub fn paint(&mut self, points: &[Coord], color: Color)
        ensures
            final(self).painted() == painted_within(
                old(self).painted(),
                points@,
                color,
                old(self).width,
                old(self).height,
            ),
            Self::same_settings(*old(self), *final(self)),
    {
        let mut k: usize = 0;
        while k < points.len()
            invariant
                k <= points@.len(),
                Self::same_settings(*old(self), *self),
                self.painted() == painted_within(
                    old(self).painted(),
                    points@.take(k as int),
                    color,
                    self.width,
                    self.height,
                ),
            decreases points@.len() - k,
        {
            proof {
                assert(points@.take(k + 1).drop_last() == points@.take(k as int));
                assert(points@.take(k + 1).last() == points@[k as int]);
            }
            let p = points[k];
            if self.within_bounds(&p) {
                self.buffer.insert(coord_key_of(p), color);
            }
            k = k + 1;
        }
        proof {
            assert(points@.take(points@.len() as int) == points@);
        }
    }
}

} // verus!
