//! Laying out the interface on the terminal: the transcript above, a status
//! line, and the line being typed below.

use ratatui::layout::{Constraint, Layout, Rect};
use ratatui::widgets::{Paragraph, Wrap};
use vstd::prelude::*;
use crate::app::{App, AppView};
use crate::render::text::{format_messages, transcript_text};

verus! {

/// A rectangle of the terminal.
#[derive(Clone, Copy, Debug, PartialEq, Eq, Structural)]
pub struct Area {
    pub x: u16,
    pub y: u16,
    pub width: u16,
    pub height: u16,
}

/// How big one part of a layout should be.
#[derive(Clone, Copy, Debug, PartialEq, Eq, Structural)]
pub enum SizeConstraint {
    /// A share of the whole, in percent.
    Percentage(u16),
    /// Exactly this many rows.
    Length(u16),
    /// At least this many rows.
    Min(u16),
}

/// The width of `area` once kept within the `u16` coordinates, as
/// `ratatui`'s `Rect::new` keeps it.
pub open spec fn clamped_width(area: Area) -> int {
    if area.x + area.width > u16::MAX { u16::MAX - area.x } else { area.width as int }
}

/// The height of `area` once kept within the `u16` coordinates, as
/// `ratatui`'s `Rect::new` keeps it.
pub open spec fn clamped_height(area: Area) -> int {
    if area.y + area.height > u16::MAX { u16::MAX - area.y } else { area.height as int }
}

/// `part` is a band of `area`: it spans the area's columns, and its rows lie
/// within the area's rows.
pub open spec fn band_of(part: Area, area: Area) -> bool {
    &&& part.x == area.x
    &&& part.width == clamped_width(area)
    &&& area.y <= part.y
    &&& part.y + part.height <= area.y + clamped_height(area)
}

/// `parts` is a result that `ratatui`'s vertical split of `area` by
/// `constraints` can give.
///
/// This relates the split to its arguments without claiming that the same
/// arguments always give the same parts: the constraint solver behind the
/// split walks hash maps whose hasher each process seeds, and numbers its
/// variables from a counter shared by all calls, so where several layouts
/// satisfy the constraints equally well, which one comes out is left open.
pub uninterp spec fn split_outcome(area: Area, constraints: Seq<SizeConstraint>, parts: Seq<Area>) -> bool;

/// Splits `area` into stacked parts with `ratatui`'s `Layout`, one part per
/// constraint.
///
/// Trusted. The result is one that the split can give for these arguments
/// (see [`split_outcome`]). The source (`Layout::split`, `try_split`,
/// `changes_to_rects`) gives one part per constraint, each spanning the
/// area's columns (no margin is set) and lying within its rows (the solver
/// requires every boundary to lie within them). Where each part starts and
/// how high it is comes from a floating-point constraint solver and is not
/// stated; nor is that the parts follow one another, which the solver is
/// asked for only with a strength below "required".
#[verifier::external_body]
fn split_vertically(area: Area, constraints: &Vec<SizeConstraint>) -> (r: Vec<Area>)
    ensures
        split_outcome(area, constraints@, r@),
        r@.len() == constraints@.len(),
        forall|i: int| 0 <= i < r@.len() ==> band_of(#[trigger] r@[i], area),
{
    let cs: Vec<Constraint> = constraints.iter().map(|c| match *c {
        SizeConstraint::Percentage(p) => Constraint::Percentage(p),
        SizeConstraint::Length(l) => Constraint::Length(l),
        SizeConstraint::Min(m) => Constraint::Min(m),
    }).collect();
    let parts = Layout::vertical(cs).split(Rect::new(area.x, area.y, area.width, area.height));
    parts.iter().map(|r| Area { x: r.x, y: r.y, width: r.width, height: r.height }).collect()
}

/// How many rows `ratatui`'s `Paragraph` takes for `text` when it wraps its
/// lines (trimming leading spaces of wrapped rows when `trim` holds) in
/// `width` columns.
pub uninterp spec fn paragraph_rows(text: Seq<char>, trim: bool, width: u16) -> usize;

/// The rows that `Paragraph::new(text).wrap(Wrap { trim }).line_count(width)`
/// gives.
///
/// Trusted: the result is `ratatui`'s count for these arguments, which is 0
/// for a width of 0 (that is the first thing `line_count` checks). The
/// wrapping rules themselves are not stated.
#[verifier::external_body]
fn wrapped_rows(text: &str, trim: bool, width: u16) -> (r: usize)
    ensures
        r == paragraph_rows(text@, trim, width),
        width == 0 ==> r == 0,
{
    Paragraph::new(text).wrap(Wrap { trim }).line_count(width)
}

/// What to draw on a frame.
pub struct FramePlan {
    /// Where the transcript goes.
    pub messages_area: Area,
    /// Where the status line goes.
    pub status_area: Area,
    /// Where the line being typed goes.
    pub input_area: Area,
    /// The transcript text.
    pub transcript: String,
    /// How many rows the transcript is scrolled down.
    pub scroll: u16,
    /// The status line.
    pub status: String,
    /// The line being typed, after a prompt.
    pub input_line: String,
}

/// The parts of the frame, top to bottom: 70% for the transcript, one row for
/// the status line, and at least three rows for the input.
pub open spec fn frame_layout() -> Seq<SizeConstraint> {
    seq![SizeConstraint::Percentage(70), SizeConstraint::Length(1), SizeConstraint::Min(3)]
}

/// The constraints of [`frame_layout`].
pub fn frame_constraints() -> (r: Vec<SizeConstraint>)
    ensures
        r@ == frame_layout(),
{
    let mut v = Vec::new();
    v.push(SizeConstraint::Percentage(70));
    v.push(SizeConstraint::Length(1));
    v.push(SizeConstraint::Min(3));
    v
}

/// How far the transcript can be scrolled when it takes `rows` rows (kept as a
/// `u16`) in an area `height` rows high.
pub open spec fn scroll_limit(rows: usize, height: u16) -> u16 {
    if (rows as u16) > height {
        ((rows as u16) - height) as u16
    } else {
        0
    }
}

/// The interface after it is laid out on a frame of width `width` whose
/// transcript area is `height` rows high.
pub open spec fn laid_out(old_app: AppView, width: u16, height: u16) -> AppView {
    AppView {
        width,
        area_height: height,
        max_scroll: scroll_limit(paragraph_rows(transcript_text(old_app.messages), true, width), height),
        ..old_app
    }
}

/// Lays the interface out on the frame `area`, given the parts `areas` that
/// the layout gave: records the frame width; when there are the three parts
/// (transcript, status, input), records the transcript area's height and how
/// far the transcript can scroll, and returns what to draw.
pub fn plan_frame(app: &mut App, area: Area, areas: &Vec<Area>) -> (r: Option<FramePlan>)
    ensures
        areas@.len() != 3 ==> r is None && final(app)@ == (AppView { width: area.width, ..old(app)@ }),
        areas@.len() == 3 ==> (r matches Some(p) && {
            &&& p.messages_area == areas@[0]
            &&& p.status_area == areas@[1]
            &&& p.input_area == areas@[2]
            &&& final(app)@ == laid_out(old(app)@, area.width, areas@[0].height)
            &&& p.transcript@ == transcript_text(old(app)@.messages)
            &&& p.scroll == old(app)@.scroll_pos
            &&& p.status@ == "Ready"@
            &&& p.input_line@ == "> "@ + old(app)@.input
        }),
{
    app.set_width(area.width);
    if areas.len() != 3 {
        return None;
    }
    let messages_area = areas[0];
    let status_area = areas[1];
    let input_area = areas[2];
    let transcript = format_messages(app.messages());
    let rows = wrapped_rows(transcript.as_str(), true, app.width());
    app.set_messages_area(messages_area.height, rows);
    let mut input_line = "> ".to_owned();
    input_line.append(app.input());
    Some(FramePlan {
        messages_area,
        status_area,
        input_area,
        transcript,
        scroll: app.scroll_pos(),
        status: "Ready".to_owned(),
        input_line,
    })
}

/// Lays the interface out on the frame `area` (see [`plan_frame`]): the
/// frame is split by `ratatui`'s layout of [`frame_layout`], the transcript
/// goes in the first part, the status line in the second and the input in the
/// third, and each of them is a band of the frame.
pub fn layout_frame(app: &mut App, area: Area) -> (r: Option<FramePlan>)
    ensures
        r matches Some(p) && exists|parts: Seq<Area>| {
            &&& #[trigger] split_outcome(area, frame_layout(), parts)
            &&& parts.len() == 3
            &&& p.messages_area == parts[0]
            &&& p.status_area == parts[1]
            &&& p.input_area == parts[2]
            &&& band_of(p.messages_area, area)
            &&& band_of(p.status_area, area)
            &&& band_of(p.input_area, area)
            &&& final(app)@ == laid_out(old(app)@, area.width, parts[0].height)
            &&& p.transcript@ == transcript_text(old(app)@.messages)
            &&& p.scroll == old(app)@.scroll_pos
            &&& p.status@ == "Ready"@
            &&& p.input_line@ == "> "@ + old(app)@.input
        },
{
    let constraints = frame_constraints();
    let areas = split_vertically(area, &constraints);
    plan_frame(app, area, &areas)
}

} // verus!
