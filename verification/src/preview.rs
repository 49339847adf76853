//! The preview pane: scrolling, link hit regions, half-block bitmaps and the
//! decisions of the asynchronous image pipeline.
//!
//! Nothing here decodes, resizes or paints. The functions decide what is to
//! be done for each image of a frame and keep track of what was done; the
//! caller owns the bitmaps and the terminal and carries the decisions out.

use vstd::prelude::*;
use crate::app_state::PreviewCommand;
use crate::buffer::{narrow, narrowed};
use crate::cache::{PathMap, PathSet};
use crate::renderer::{ImageInfo, ImageInfoView};
use crate::style::{Color, Style};
use crate::text::{chars_of, string_of, string_texts};
use crate::theme;

verus! {

/// A rectangle of terminal cells.
#[derive(Clone, Copy, Debug, PartialEq, Eq, Structural)]
pub struct Rect {
    pub x: u16,
    pub y: u16,
    pub width: u16,
    pub height: u16,
}

impl Rect {
    /// Whether the rectangle ends within the coordinates of a terminal.
    pub open spec fn fits(self) -> bool {
        self.x + self.width <= u16::MAX && self.y + self.height <= u16::MAX
    }

    /// The rectangle, cut so that it ends within the coordinates of a
    /// terminal.
    pub fn new(x: u16, y: u16, width: u16, height: u16) -> (r: Rect)
        ensures
            r.fits(),
            r.x == x,
            r.y == y,
            r.width == if x + width <= u16::MAX {
                width
            } else {
                (u16::MAX - x) as u16
            },
            r.height == if y + height <= u16::MAX {
                height
            } else {
                (u16::MAX - y) as u16
            },
    {
        Rect {
            x,
            y,
            width: if width <= u16::MAX - x {
                width
            } else {
                u16::MAX - x
            },
            height: if height <= u16::MAX - y {
                height
            } else {
                u16::MAX - y
            },
        }
    }

    /// Whether the rectangle fits; what `fits` says, at run time.
    pub fn is_valid(&self) -> (b: bool)
        ensures
            b == self.fits(),
    {
        self.width <= u16::MAX - self.x && self.height <= u16::MAX - self.y
    }
}

/// A clickable link region in the painted preview.
#[derive(Debug)]
pub struct ClickableLink {
    pub y: u16,
    pub x_start: u16,
    pub x_end: u16,
    pub url: String,
}

/// A `ClickableLink` with its destination as a sequence of characters.
pub struct LinkView {
    pub y: int,
    pub x_start: int,
    pub x_end: int,
    pub url: Seq<char>,
}

impl View for ClickableLink {
    type V = LinkView;

    open spec fn view(&self) -> LinkView {
        LinkView {
            y: self.y as int,
            x_start: self.x_start as int,
            x_end: self.x_end as int,
            url: self.url@,
        }
    }
}

/// The views of a list of links.
pub open spec fn link_views(v: Seq<ClickableLink>) -> Seq<LinkView> {
    Seq::new(v.len(), |i: int| v[i]@)
}

/// Whether the position lies in the link region.
pub open spec fn hits(link: LinkView, x: int, y: int) -> bool {
    link.y == y && link.x_start <= x < link.x_end
}

/// The destination of the first link from `i` on that the position lies in.
pub open spec fn url_from(links: Seq<LinkView>, x: int, y: int, i: int) -> Option<Seq<char>>
    decreases links.len() - i,
{
    if i < 0 || i >= links.len() {
        None
    } else if hits(links[i], x, y) {
        Some(links[i].url)
    } else {
        url_from(links, x, y, i + 1)
    }
}

/// Finds the destination of the link at a screen position, if any.
pub fn url_at(links: &Vec<ClickableLink>, x: u16, y: u16) -> (r: Option<&str>)
    ensures
        match r {
            Some(u) => url_from(link_views(links@), x as int, y as int, 0) == Some(u@),
            None => url_from(link_views(links@), x as int, y as int, 0).is_none(),
        },
{
    let mut i: usize = 0;
    while i < links.len()
        invariant
            i <= links.len(),
            url_from(link_views(links@), x as int, y as int, i as int) == url_from(
                link_views(links@),
                x as int,
                y as int,
                0,
            ),
        decreases links.len() - i,
    {
        let link = &links[i];
        assert(link_views(links@)[i as int] == link@);
        if link.y == y && x >= link.x_start && x < link.x_end {
            return Some(link.url.as_str());
        }
        i += 1;
    }
    None
}

/// Whether a cell is painted as a link: the link color, underlined.
pub open spec fn is_link_style(style: Style) -> bool {
    style.fg == Some(theme::LINK) && style.add_modifier.underlined
}

/// Whether the cell in column `c` of a row shows a link; a cell that is
/// missing shows none.
pub open spec fn link_cell(row: Seq<Option<Style>>, c: int) -> bool {
    0 <= c < row.len() && row[c].is_some() && is_link_style(row[c].unwrap())
}

/// The state of the scan for link regions: the regions found, and the start
/// column of the run that is open, if one is.
pub struct LinkScan {
    pub found: Seq<LinkView>,
    pub open: Option<int>,
}

/// A run from `start` to `end` in row `y` noted as the next link, if a
/// destination is left for it.
pub open spec fn run_closed(found: Seq<LinkView>, urls: Seq<Seq<char>>, y: int, start: int, end: int) -> Seq<
    LinkView,
> {
    if found.len() < urls.len() {
        found.push(LinkView { y, x_start: start, x_end: end, url: urls[found.len() as int] })
    } else {
        found
    }
}

/// The scan after the first `c` cells of a row at `y`, which starts at
/// column `x0` of the screen: a run opens at a link cell and is closed by
/// the first cell that is no link cell; missing cells change nothing.
pub open spec fn row_scanned(
    scan: LinkScan,
    row: Seq<Option<Style>>,
    urls: Seq<Seq<char>>,
    x0: int,
    y: int,
    c: int,
) -> LinkScan
    decreases c,
{
    if c <= 0 {
        scan
    } else {
        let before = row_scanned(scan, row, urls, x0, y, c - 1);
        if c - 1 >= row.len() || row[c - 1].is_none() {
            before
        } else if link_cell(row, c - 1) {
            if before.open.is_none() {
                LinkScan { open: Some(x0 + c - 1), ..before }
            } else {
                before
            }
        } else if before.open.is_some() {
            LinkScan {
                found: run_closed(before.found, urls, y, before.open.unwrap(), x0 + c - 1),
                open: None,
            }
        } else {
            before
        }
    }
}

/// The regions found in the first `r` rows of the area: a run still open at
/// the end of a row is closed at the right edge of the area.
pub open spec fn rows_scanned(
    cells: Seq<Seq<Option<Style>>>,
    urls: Seq<Seq<char>>,
    area: Rect,
    r: int,
) -> Seq<LinkView>
    decreases r,
{
    if r <= 0 {
        Seq::empty()
    } else {
        let before = rows_scanned(cells, urls, area, r - 1);
        let y = area.y + r - 1;
        let row = if r - 1 < cells.len() {
            cells[r - 1]
        } else {
            Seq::empty()
        };
        let scan = row_scanned(
            LinkScan { found: before, open: None },
            row,
            urls,
            area.x as int,
            y,
            area.width as int,
        );
        if scan.open.is_some() {
            run_closed(scan.found, urls, y, scan.open.unwrap(), area.x + area.width)
        } else {
            scan.found
        }
    }
}

/// The clickable regions of the painted area: the runs of link cells, row
/// by row, paired with the destinations in their order. Without
/// destinations there is no region.
pub open spec fn link_regions(cells: Seq<Seq<Option<Style>>>, urls: Seq<Seq<char>>, area: Rect) -> Seq<
    LinkView,
> {
    if urls.len() == 0 {
        Seq::empty()
    } else {
        rows_scanned(cells, urls, area, area.height as int)
    }
}

/// The rows of cell styles as sequences.
pub open spec fn style_rows(cells: Seq<Vec<Option<Style>>>) -> Seq<Seq<Option<Style>>> {
    Seq::new(cells.len(), |i: int| cells[i]@)
}

fn close_run(out: &mut Vec<ClickableLink>, urls: &Vec<String>, y: u16, start: u16, end: u16)
    ensures
        link_views(final(out)@) == run_closed(
            link_views(old(out)@),
            string_texts(urls@),
            y as int,
            start as int,
            end as int,
        ),
{
    if out.len() < urls.len() {
        let link = ClickableLink {
            y,
            x_start: start,
            x_end: end,
            url: urls[out.len()].clone(),
        };
        assert(string_texts(urls@)[out.len() as int] == urls@[out.len() as int]@);
        assert(link_views(out@.push(link)) =~= link_views(out@).push(link@));
        out.push(link);
    }
}

/// Scans the painted cells of the area for link-styled runs and maps them
/// to the link destinations. `cells` holds the style of each cell of the
/// area, row by row; `None` stands for a cell outside the buffer.
pub fn build_link_regions(cells: &Vec<Vec<Option<Style>>>, area: Rect, link_urls: &Vec<String>) -> (out:
    Vec<ClickableLink>)
    requires
        area.fits(),
    ensures
        link_views(out@) == link_regions(style_rows(cells@), string_texts(link_urls@), area),
{
    let mut out: Vec<ClickableLink> = Vec::new();
    assert(link_views(out@) =~= Seq::<LinkView>::empty());
    if link_urls.len() == 0 {
        return out;
    }
    let ghost g = style_rows(cells@);
    let ghost urls = string_texts(link_urls@);
    let mut r: u16 = 0;
    while r < area.height
        invariant
            r <= area.height,
            area.fits(),
            g == style_rows(cells@),
            urls == string_texts(link_urls@),
            link_views(out@) == rows_scanned(g, urls, area, r as int),
        decreases area.height - r,
    {
        let y = area.y + r;
        let empty: Vec<Option<Style>> = Vec::new();
        let row: &Vec<Option<Style>> = if (r as usize) < cells.len() {
            assert(g[r as int] == cells@[r as int]@);
            &cells[r as usize]
        } else {
            &empty
        };
        let ghost start = LinkScan { found: link_views(out@), open: None };
        let mut open: Option<u16> = None;
        let mut c: u16 = 0;
        while c < area.width
            invariant
                c <= area.width,
                area.fits(),
                urls == string_texts(link_urls@),
                y == area.y + r,
                open.is_some() ==> open.unwrap() < area.x + c,
                row_scanned(start, row@, urls, area.x as int, y as int, c as int) == (LinkScan {
                    found: link_views(out@),
                    open: match open {
                        Some(x) => Some(x as int),
                        None => None,
                    },
                }),
            decreases area.width - c,
        {
            if (c as usize) < row.len() {
                if let Some(style) = row[c as usize] {
                    let is_link = match style.fg {
                        Some(Color::Cyan) => style.add_modifier.underlined,
                        _ => false,
                    };
                    assert(is_link == link_cell(row@, c as int));
                    if is_link {
                        if open.is_none() {
                            open = Some(area.x + c);
                        }
                    } else if let Some(x_start) = open {
                        close_run(&mut out, link_urls, y, x_start, area.x + c);
                        open = None;
                    }
                }
            }
            c += 1;
        }
        if let Some(x_start) = open {
            close_run(&mut out, link_urls, y, x_start, area.x + area.width);
        }
        r += 1;
    }
    out
}

/// A pre-resized bitmap: rows of pixels from top to bottom, four bytes for
/// each pixel in the order red, green, blue, alpha.
pub struct Bitmap {
    pub width: u32,
    pub height: u32,
    pub pixels: Vec<u8>,
}

/// A color by its red, green and blue parts.
#[derive(Clone, Copy, Debug, PartialEq, Eq, Structural)]
pub struct Rgb {
    pub r: u8,
    pub g: u8,
    pub b: u8,
}

/// The background that bitmaps are composed over.
pub open spec fn canvas() -> Rgb {
    Rgb { r: 30, g: 30, b: 30 }
}

/// One channel of a pixel composed over the background by its alpha.
pub open spec fn blended(p: u8, a: u8, bg: u8) -> u8 {
    ((p as int * a as int + bg as int * (255 - a as int)) / 255) as u8
}

/// The color of the pixel at `x`, `y` composed over the background; the
/// background itself outside the bitmap.
pub open spec fn pixel_color(width: int, height: int, pixels: Seq<u8>, x: int, y: int) -> Rgb {
    let at = 4 * (y * width + x);
    if 0 <= x < width && 0 <= y < height && at + 3 < pixels.len() {
        Rgb {
            r: blended(pixels[at], pixels[at + 3], canvas().r),
            g: blended(pixels[at + 1], pixels[at + 3], canvas().g),
            b: blended(pixels[at + 2], pixels[at + 3], canvas().b),
        }
    } else {
        canvas()
    }
}

/// What a cell shows of a bitmap.
#[derive(Clone, Copy, Debug, PartialEq, Eq, Structural)]
pub enum CellPaint {
    /// Nothing: both pixels are background.
    Reset,
    /// An upper half block: the upper pixel as foreground, the lower one as
    /// background.
    HalfBlock { upper: Rgb, lower: Rgb },
}

/// The columns left of a bitmap that is centered in `full_cols` columns.
pub open spec fn left_pad(full_cols: int, width: int) -> int {
    if full_cols > width {
        (full_cols - width) / 2
    } else {
        0
    }
}

/// What the cell in column `dx`, row `dy` of the drawn part shows, where the
/// bitmap is centered in `full_cols` columns and `y_offset` rows are cut off
/// at the top: the cell packs the two pixels of bitmap rows `2 * row` and
/// `2 * row + 1`.
pub open spec fn halfblock_cell(
    width: int,
    height: int,
    pixels: Seq<u8>,
    full_cols: int,
    y_offset: int,
    dx: int,
    dy: int,
) -> CellPaint {
    let x = dx - left_pad(full_cols, width);
    let row = dy + y_offset;
    let upper = pixel_color(width, height, pixels, x, 2 * row);
    let lower = pixel_color(width, height, pixels, x, 2 * row + 1);
    if upper == canvas() && lower == canvas() {
        CellPaint::Reset
    } else {
        CellPaint::HalfBlock { upper, lower }
    }
}

fn blend(p: u8, a: u8, bg: u8) -> (r: u8)
    ensures
        r == blended(p, a, bg),
{
    let inv: u16 = 255 - a as u16;
    assert(p as int * a as int + bg as int * (255 - a as int) <= 255 * 255) by (nonlinear_arith)
        requires
            0 <= p <= 255,
            0 <= a <= 255,
            0 <= bg <= 255,
    ;
    assert(p as int * a as int >= 0) by (nonlinear_arith)
        requires
            0 <= p,
            0 <= a,
    ;
    assert(p as int * a as int <= 255 * 255) by (nonlinear_arith)
        requires
            0 <= p <= 255,
            0 <= a <= 255,
    ;
    assert(bg as int * (255 - a as int) >= 0) by (nonlinear_arith)
        requires
            0 <= bg,
            0 <= a <= 255,
    ;
    let v: u16 = (p as u16 * a as u16 + bg as u16 * inv) / 255;
    v as u8
}

fn color_at(bitmap: &Bitmap, x: u64, y: u64) -> (r: Rgb)
    ensures
        r == pixel_color(
            bitmap.width as int,
            bitmap.height as int,
            bitmap.pixels@,
            x as int,
            y as int,
        ),
{
    if x < bitmap.width as u64 && y < bitmap.height as u64 {
        assert(y * bitmap.width + x < 0x1_0000_0000 * 0x1_0000_0000) by (nonlinear_arith)
            requires
                y < 0x1_0000_0000,
                x < 0x1_0000_0000,
                bitmap.width < 0x1_0000_0000,
        ;
        let at: u128 = 4 * (y as u128 * bitmap.width as u128 + x as u128);
        if at + 3 < bitmap.pixels.len() as u128 {
            let i = at as usize;
            let a = bitmap.pixels[i + 3];
            return Rgb {
                r: blend(bitmap.pixels[i], a, 30),
                g: blend(bitmap.pixels[i + 1], a, 30),
                b: blend(bitmap.pixels[i + 2], a, 30),
            };
        }
    }
    Rgb { r: 30, g: 30, b: 30 }
}

/// Renders a pre-resized bitmap as half blocks: one row of cells for each
/// row of `rect`, one cell for each of its columns.
pub fn render_halfblock_image(rect: Rect, bitmap: &Bitmap, full_cols: u16, y_offset: u16) -> (r: Vec<
    Vec<CellPaint>,
>)
    ensures
        r@.len() == if rect.width == 0 {
            0
        } else {
            rect.height as int
        },
        forall|dy: int|
            0 <= dy < r@.len() ==> (#[trigger] r@[dy])@.len() == rect.width && forall|dx: int|
                0 <= dx < rect.width ==> (#[trigger] r@[dy]@[dx]) == halfblock_cell(
                    bitmap.width as int,
                    bitmap.height as int,
                    bitmap.pixels@,
                    full_cols as int,
                    y_offset as int,
                    dx,
                    dy,
                ),
{
    let mut out: Vec<Vec<CellPaint>> = Vec::new();
    if rect.width == 0 || rect.height == 0 {
        return out;
    }
    let x_pad: u32 = if full_cols as u32 > bitmap.width {
        (full_cols as u32 - bitmap.width) / 2
    } else {
        0
    };
    let mut dy: u16 = 0;
    while dy < rect.height
        invariant
            dy <= rect.height,
            out@.len() == dy,
            x_pad == left_pad(full_cols as int, bitmap.width as int),
            forall|j: int|
                0 <= j < dy ==> (#[trigger] out@[j])@.len() == rect.width && forall|dx: int|
                    0 <= dx < rect.width ==> (#[trigger] out@[j]@[dx]) == halfblock_cell(
                        bitmap.width as int,
                        bitmap.height as int,
                        bitmap.pixels@,
                        full_cols as int,
                        y_offset as int,
                        dx,
                        j,
                    ),
        decreases rect.height - dy,
    {
        let img_row: u64 = dy as u64 + y_offset as u64;
        let mut row: Vec<CellPaint> = Vec::new();
        let mut dx: u16 = 0;
        while dx < rect.width
            invariant
                dx <= rect.width,
                row@.len() == dx,
                img_row == dy + y_offset,
                x_pad == left_pad(full_cols as int, bitmap.width as int),
                forall|i: int|
                    0 <= i < dx ==> (#[trigger] row@[i]) == halfblock_cell(
                        bitmap.width as int,
                        bitmap.height as int,
                        bitmap.pixels@,
                        full_cols as int,
                        y_offset as int,
                        i,
                        dy as int,
                    ),
            decreases rect.width - dx,
        {
            let (upper, lower) = if dx as u32 >= x_pad {
                let x = (dx as u32 - x_pad) as u64;
                (color_at(bitmap, x, img_row * 2), color_at(bitmap, x, img_row * 2 + 1))
            } else {
                (Rgb { r: 30, g: 30, b: 30 }, Rgb { r: 30, g: 30, b: 30 })
            };
            let is_bg = upper.r == 30 && upper.g == 30 && upper.b == 30 && lower.r == 30 && lower.g
                == 30 && lower.b == 30;
            row.push(
                if is_bg {
                    CellPaint::Reset
                } else {
                    CellPaint::HalfBlock { upper, lower }
                },
            );
            dx += 1;
        }
        out.push(row);
        dy += 1;
    }
    out
}

/// The size of a bitmap in pixels.
#[derive(Clone, Copy, Debug, PartialEq, Eq, Structural)]
pub struct Dimensions {
    pub width: u32,
    pub height: u32,
}

/// How a bitmap is scaled.
#[derive(Clone, Copy, Debug, PartialEq, Eq, Structural)]
pub enum ResizeFilter {
    Triangle,
    Lanczos3,
}

/// A bitmap to be scaled to the given size.
#[derive(Clone, Copy, Debug, PartialEq, Eq, Structural)]
pub struct ResizeRequest {
    pub width: u32,
    pub height: u32,
    pub filter: ResizeFilter,
}

/// How an image is put on the screen.
#[derive(Clone, Copy, Debug, PartialEq, Eq, Structural)]
pub enum Backend {
    /// Through the terminal's graphics protocol: the cells under the image
    /// are cleared, the protocol resource is made first where `create`
    /// says so, and the image is drawn where `draw` says so.
    Protocol { create: bool, draw: bool },
    /// The cells under the image are cleared and nothing is drawn.
    Blank,
    /// As half blocks, where `draw` says that a resized bitmap is there.
    HalfBlock { draw: bool },
}

/// Where and how the visible part of an image is drawn.
#[derive(Clone, Copy, Debug, PartialEq, Eq, Structural)]
pub struct ImageJob {
    pub rect: Rect,
    /// The rows of the image that are cut off above the viewport.
    pub y_offset: u16,
    /// The full width of the image area, for centering.
    pub full_cols: u16,
    pub backend: Backend,
}

/// What is to be done for a decoded image in this frame.
#[derive(Debug)]
pub struct ImageWork {
    pub path: String,
    pub resize: Option<ResizeRequest>,
    pub job: Option<ImageJob>,
}

/// What is to be done for an image in this frame.
#[derive(Debug)]
pub enum ImagePlan {
    /// The image is outside the viewport.
    Hidden,
    /// The image has no file: the placeholder stays.
    Unresolved,
    /// The file is to be decoded in the background; the placeholder stays.
    Decode(String),
    /// The file is being decoded; the placeholder stays.
    Pending,
    /// The file is decoded, or failed to decode for good.
    Ready(ImageWork),
}

/// An `ImageWork` with its path as a sequence of characters.
pub struct WorkView {
    pub path: Seq<char>,
    pub resize: Option<ResizeRequest>,
    pub job: Option<ImageJob>,
}

/// An `ImagePlan` with its paths as sequences of characters.
pub enum PlanView {
    Hidden,
    Unresolved,
    Decode(Seq<char>),
    Pending,
    Ready(WorkView),
}

impl View for ImagePlan {
    type V = PlanView;

    open spec fn view(&self) -> PlanView {
        match self {
            ImagePlan::Hidden => PlanView::Hidden,
            ImagePlan::Unresolved => PlanView::Unresolved,
            ImagePlan::Decode(p) => PlanView::Decode(p@),
            ImagePlan::Pending => PlanView::Pending,
            ImagePlan::Ready(w) => PlanView::Ready(
                WorkView { path: w.path@, resize: w.resize, job: w.job },
            ),
        }
    }
}

/// What the image pipeline remembers between frames, keyed by file path.
pub struct ImagePipeline {
    files: PathMap<String>,
    decoded: PathMap<Option<Dimensions>>,
    resized: PathMap<Dimensions>,
    area: Rect,
    in_flight: PathSet,
    has_picker: bool,
    protocols: PathSet,
    last_shown: PathSet,
    shown: PathSet,
}

/// The state of the image pipeline as values.
pub struct PipelineView {
    /// The file of each image destination that was resolved.
    pub files: Map<Seq<char>, Seq<char>>,
    /// The size of each decoded file; `None` for a file that failed.
    pub decoded: Map<Seq<char>, Option<Dimensions>>,
    /// The size that the bitmap of each file was last scaled to.
    pub resized: Map<Seq<char>, Dimensions>,
    /// The render area of the last frame.
    pub area: Rect,
    /// The files that are being decoded.
    pub in_flight: Set<Seq<char>>,
    /// Whether the terminal has a graphics protocol.
    pub has_picker: bool,
    /// The files that have a protocol resource.
    pub protocols: Set<Seq<char>>,
    /// The files drawn through the protocol in the last frame.
    pub last_shown: Set<Seq<char>>,
    /// The files drawn through the protocol in this frame so far.
    pub shown: Set<Seq<char>>,
}

impl View for ImagePipeline {
    type V = PipelineView;

    closed spec fn view(&self) -> PipelineView {
        PipelineView {
            files: self.files@.map_values(|p: String| p@),
            decoded: self.decoded@,
            resized: self.resized@,
            area: self.area,
            in_flight: self.in_flight@,
            has_picker: self.has_picker,
            protocols: self.protocols@,
            last_shown: self.last_shown@,
            shown: self.shown@,
        }
    }
}

/// The first row of an image in the document, no further than a screen
/// coordinate can name.
pub open spec fn first_row(info: ImageInfoView) -> int {
    narrowed(info.start_line)
}

/// The number of rows of an image, no more than a screen coordinate can
/// name.
pub open spec fn row_count(info: ImageInfoView) -> int {
    narrowed(info.line_count)
}

/// Whether no row of the image is in the viewport.
pub open spec fn is_hidden(info: ImageInfoView, scroll: int, area: Rect) -> bool {
    first_row(info) + row_count(info) <= scroll || first_row(info) >= scroll + area.height
}

/// The size that the bitmap of an image is scaled to: one pixel for each
/// column but the last, two for each row.
pub open spec fn target_size(info: ImageInfoView, area: Rect) -> Dimensions {
    Dimensions {
        width: (if area.width > 0 {
            area.width - 1
        } else {
            0
        }) as u32,
        height: (row_count(info) * 2) as u32,
    }
}

/// The filter for scaling a bitmap of the given size: the cheap one for
/// more than two million pixels.
pub open spec fn filter_for(size: Dimensions) -> ResizeFilter {
    if size.width * size.height > 2_000_000 {
        ResizeFilter::Triangle
    } else {
        ResizeFilter::Lanczos3
    }
}

/// The screen row of the first row of the image; negative where that row
/// is above the viewport.
pub open spec fn screen_row(info: ImageInfoView, scroll: int, area: Rect) -> int {
    area.y + first_row(info) - scroll
}

/// The first screen row of the image that is in the viewport.
pub open spec fn visible_top(info: ImageInfoView, scroll: int, area: Rect) -> int {
    if screen_row(info, scroll, area) > area.y {
        screen_row(info, scroll, area)
    } else {
        area.y as int
    }
}

/// The screen row after the last row of the image that is in the viewport.
pub open spec fn visible_bottom(info: ImageInfoView, scroll: int, area: Rect) -> int {
    if screen_row(info, scroll, area) + row_count(info) < area.y + area.height {
        screen_row(info, scroll, area) + row_count(info)
    } else {
        area.y + area.height
    }
}

/// The file of an image: the cached one, else the one just resolved.
pub open spec fn file_of(p: PipelineView, url: Seq<char>, resolved: Option<Seq<char>>) -> Option<
    Seq<char>,
> {
    if p.files.dom().contains(url) {
        Some(p.files[url])
    } else {
        resolved
    }
}

/// The resize that a decoded file needs: none where the bitmap was scaled
/// to the target size already, or where the file failed to decode.
pub open spec fn resize_for(p: PipelineView, path: Seq<char>, target: Dimensions) -> Option<
    ResizeRequest,
> {
    if (!p.resized.dom().contains(path) || p.resized[path] != target) && p.decoded.dom().contains(
        path,
    ) && p.decoded[path].is_some() {
        Some(
            ResizeRequest {
                width: target.width,
                height: target.height,
                filter: filter_for(p.decoded[path].unwrap()),
            },
        )
    } else {
        None
    }
}

/// Whether a protocol resource is made for the file in this frame.
pub open spec fn creates_protocol(p: PipelineView, path: Seq<char>) -> bool {
    !p.protocols.contains(path) && p.decoded.dom().contains(path) && p.decoded[path].is_some()
}

/// How the visible part of a decoded image is drawn: through the protocol
/// where the terminal has one and the top of the image is in view, blank
/// where the terminal has one and the top is cut off, else as half blocks.
pub open spec fn backend_for(p: PipelineView, path: Seq<char>, y_offset: int, resized: bool) -> Backend {
    if p.has_picker && y_offset == 0 {
        Backend::Protocol {
            create: creates_protocol(p, path),
            draw: p.protocols.contains(path) || creates_protocol(p, path),
        }
    } else if p.has_picker {
        Backend::Blank
    } else {
        Backend::HalfBlock { draw: resized }
    }
}

/// The drawing job for an image whose file was decoded; none where no row
/// is in view, and none for a file that failed to decode, so that its
/// placeholder stays.
pub open spec fn job_for(
    p: PipelineView,
    info: ImageInfoView,
    path: Seq<char>,
    scroll: int,
    area: Rect,
) -> Option<ImageJob> {
    let top = visible_top(info, scroll, area);
    let bottom = visible_bottom(info, scroll, area);
    let y_offset = top - screen_row(info, scroll, area);
    let full_cols = target_size(info, area).width;
    if top < bottom && p.decoded.dom().contains(path) && p.decoded[path].is_some() {
        Some(
            ImageJob {
                rect: Rect {
                    x: area.x,
                    y: top as u16,
                    width: full_cols as u16,
                    height: (bottom - top) as u16,
                },
                y_offset: y_offset as u16,
                full_cols: full_cols as u16,
                backend: backend_for(
                    p,
                    path,
                    y_offset,
                    p.resized.dom().contains(path) || resize_for(
                        p,
                        path,
                        target_size(info, area),
                    ).is_some(),
                ),
            },
        )
    } else {
        None
    }
}

/// What is to be done for an image: nothing where it is hidden or has no
/// file; a decode where its file is neither decoded nor being decoded;
/// else the resize it needs and the job that draws it.
pub open spec fn plan_for(
    p: PipelineView,
    info: ImageInfoView,
    scroll: int,
    area: Rect,
    resolved: Option<Seq<char>>,
) -> PlanView {
    let file = file_of(p, info.url, resolved);
    if is_hidden(info, scroll, area) {
        PlanView::Hidden
    } else if file.is_none() {
        PlanView::Unresolved
    } else if !p.decoded.dom().contains(file.unwrap()) {
        if p.in_flight.contains(file.unwrap()) {
            PlanView::Pending
        } else {
            PlanView::Decode(file.unwrap())
        }
    } else {
        PlanView::Ready(
            WorkView {
                path: file.unwrap(),
                resize: resize_for(p, file.unwrap(), target_size(info, area)),
                job: job_for(p, info, file.unwrap(), scroll, area),
            },
        )
    }
}

/// The pipeline after the plan for an image was made: a resolution that
/// succeeded is cached, a file sent to decode is in flight, a resize is
/// noted with its target size, and a file drawn through the protocol has
/// its resource and counts as shown.
pub open spec fn pipeline_after(
    p: PipelineView,
    info: ImageInfoView,
    scroll: int,
    area: Rect,
    resolved: Option<Seq<char>>,
) -> PipelineView {
    let file = file_of(p, info.url, resolved);
    if is_hidden(info, scroll, area) || file.is_none() {
        p
    } else {
        let cached = PipelineView { files: p.files.insert(info.url, file.unwrap()), ..p };
        match plan_for(p, info, scroll, area, resolved) {
            PlanView::Decode(path) => PipelineView { in_flight: cached.in_flight.insert(path), ..cached },
            PlanView::Ready(work) => {
                let scaled = if work.resize.is_some() {
                    PipelineView {
                        resized: cached.resized.insert(work.path, target_size(info, area)),
                        ..cached
                    }
                } else {
                    cached
                };
                match work.job {
                    Some(job) => match job.backend {
                        Backend::Protocol { create, draw } => PipelineView {
                            protocols: if create {
                                scaled.protocols.insert(work.path)
                            } else {
                                scaled.protocols
                            },
                            shown: if draw {
                                scaled.shown.insert(work.path)
                            } else {
                                scaled.shown
                            },
                            ..scaled
                        },
                        _ => scaled,
                    },
                    None => scaled,
                }
            },
            _ => cached,
        }
    }
}

/// The pipeline after a decode result arrived: the file is no longer in
/// flight, what was made of an earlier bitmap of it is dropped, the result
/// is kept for good, and a destination that came with it is resolved.
pub open spec fn pipeline_delivered(
    p: PipelineView,
    path: Seq<char>,
    image: Option<Dimensions>,
    url_hint: Option<Seq<char>>,
) -> PipelineView {
    PipelineView {
        in_flight: p.in_flight.remove(path),
        resized: p.resized.remove(path),
        protocols: p.protocols.remove(path),
        decoded: p.decoded.insert(path, image),
        files: match url_hint {
            Some(url) => p.files.insert(url, path),
            None => p.files,
        },
        ..p
    }
}

/// The pipeline at the start of a frame: no file is shown yet, and where
/// the width or height of the render area changed, no protocol resource is
/// left.
pub open spec fn pipeline_begun(p: PipelineView, area: Rect) -> PipelineView {
    PipelineView {
        protocols: if p.area.width != area.width || p.area.height != area.height {
            Set::empty()
        } else {
            p.protocols
        },
        area,
        shown: Set::empty(),
        ..p
    }
}

/// The pipeline at the end of a frame: the protocol resources of files
/// that were shown in the last frame and not in this one are dropped.
pub open spec fn pipeline_ended(p: PipelineView) -> PipelineView {
    PipelineView {
        protocols: p.protocols.difference(p.last_shown.difference(p.shown)),
        last_shown: p.shown,
        shown: Set::empty(),
        ..p
    }
}

/// The pipeline before the first frame.
pub open spec fn fresh_pipeline(has_picker: bool) -> PipelineView {
    PipelineView {
        files: Map::empty(),
        decoded: Map::empty(),
        resized: Map::empty(),
        area: Rect { x: 0, y: 0, width: 0, height: 0 },
        in_flight: Set::empty(),
        has_picker,
        protocols: Set::empty(),
        last_shown: Set::empty(),
        shown: Set::empty(),
    }
}

impl ImagePipeline {
    /// A pipeline that has seen nothing yet.
    pub fn new(has_picker: bool) -> (p: ImagePipeline)
        ensures
            p@ == fresh_pipeline(has_picker),
    {
        let p = ImagePipeline {
            files: PathMap::new(),
            decoded: PathMap::new(),
            resized: PathMap::new(),
            area: Rect { x: 0, y: 0, width: 0, height: 0 },
            in_flight: PathSet::new(),
            has_picker,
            protocols: PathSet::new(),
            last_shown: PathSet::new(),
            shown: PathSet::new(),
        };
        assert(p@.files =~= Map::empty());
        p
    }

    /// Starts a frame. Returns whether the protocol resources were dropped
    /// because the render area changed its size.
    pub fn begin_frame(&mut self, area: Rect) -> (cleared: bool)
        ensures
            final(self)@ == pipeline_begun(old(self)@, area),
            cleared == (old(self)@.area.width != area.width || old(self)@.area.height
                != area.height),
    {
        let cleared = self.area.width != area.width || self.area.height != area.height;
        if cleared {
            self.protocols.clear();
        }
        self.area = area;
        self.shown.clear();
        cleared
    }

    /// Whether the caller has to resolve the image's destination before it
    /// asks for the plan: the image is in view and no file is cached for it.
    pub fn needs_resolution(&self, info: &ImageInfo, scroll: u16, area: Rect) -> (b: bool)
        ensures
            b == (!is_hidden(info@, scroll as int, area) && !self@.files.dom().contains(
                info@.url,
            )),
    {
        !hidden(info, scroll, area) && !self.files.contains_key(info.url.as_str())
    }

    /// Takes in the result of a background decode.
    pub fn deliver(&mut self, path: &str, image: Option<Dimensions>, url_hint: Option<String>)
        ensures
            final(self)@ == pipeline_delivered(
                old(self)@,
                path@,
                image,
                match url_hint {
                    Some(u) => Some(u@),
                    None => None,
                },
            ),
    {
        self.in_flight.remove(path);
        self.resized.remove(path);
        self.protocols.remove(path);
        let key = string_of(&chars_of(path));
        self.decoded.insert(key, image);
        if let Some(url) = url_hint {
            let value = string_of(&chars_of(path));
            let ghost before = self.files@;
            self.files.insert(url, value);
            assert(self.files@.map_values(|p: String| p@) =~= before.map_values(
                |p: String| p@,
            ).insert(url@, path@));
        }
    }

    /// Ends a frame. Returns the files whose protocol resource is to be
    /// dropped: those shown in the last frame and not in this one.
    pub fn end_frame(&mut self) -> (dropped: Vec<String>)
        ensures
            final(self)@ == pipeline_ended(old(self)@),
            crate::cache::key_set(dropped@) == old(self)@.last_shown.difference(old(self)@.shown),
    {
        let last = self.last_shown.to_vec();
        let mut dropped: Vec<String> = Vec::new();
        let ghost shown = self.shown@;
        let mut i: usize = 0;
        assert(last@.take(0) =~= Seq::<String>::empty());
        assert(self.protocols@ =~= old(self)@.protocols.difference(
            crate::cache::key_set(last@.take(0)).difference(shown),
        ));
        assert(crate::cache::key_set(dropped@) =~= crate::cache::key_set(last@.take(0)).difference(
            shown,
        ));
        while i < last.len()
            invariant
                i <= last.len(),
                self.shown@ == shown,
                shown == old(self)@.shown,
                self.last_shown@ == old(self)@.last_shown,
                self.files@ == old(self).files@,
                self.decoded@ == old(self).decoded@,
                self.resized@ == old(self).resized@,
                self.area == old(self).area,
                self.in_flight@ == old(self).in_flight@,
                self.has_picker == old(self).has_picker,
                self.protocols@ == old(self)@.protocols.difference(
                    crate::cache::key_set(last@.take(i as int)).difference(shown),
                ),
                crate::cache::key_set(dropped@) == crate::cache::key_set(
                    last@.take(i as int),
                ).difference(shown),
            decreases last.len() - i,
        {
            let path = &last[i];
            proof {
                assert(last@.take(i + 1) =~= last@.take(i as int).push(*path));
                crate::cache::lemma_key_set_push(last@.take(i as int), *path);
            }
            let ghost before = crate::cache::key_set(last@.take(i as int));
            if !self.shown.contains(path.as_str()) {
                self.protocols.remove(path.as_str());
                let copy = path.clone();
                proof {
                    crate::cache::lemma_key_set_push(dropped@, copy);
                    assert(crate::cache::key_set(dropped@).insert(path@) =~= before.insert(
                        path@,
                    ).difference(shown));
                    assert(self.protocols@ =~= old(self)@.protocols.difference(
                        before.insert(path@).difference(shown),
                    ));
                }
                dropped.push(copy);
            } else {
                assert(before.insert(path@).difference(shown) =~= before.difference(shown));
            }
            i += 1;
        }
        assert(last@.take(last.len() as int) =~= last@);
        let mut shown_now = PathSet::new();
        std::mem::swap(&mut shown_now, &mut self.shown);
        self.last_shown = shown_now;
        dropped
    }
}

fn hidden(info: &ImageInfo, scroll: u16, area: Rect) -> (b: bool)
    ensures
        b == is_hidden(info@, scroll as int, area),
{
    let first = narrow(info.start_line) as u32;
    let rows = narrow(info.line_count) as u32;
    first + rows <= scroll as u32 || first >= scroll as u32 + area.height as u32
}

fn target_of(info: &ImageInfo, area: Rect) -> (t: Dimensions)
    ensures
        t == target_size(info@, area),
{
    Dimensions {
        width: if area.width > 0 {
            (area.width - 1) as u32
        } else {
            0
        },
        height: (narrow(info.line_count) as u32) * 2,
    }
}

fn choose_filter(size: Dimensions) -> (f: ResizeFilter)
    ensures
        f == filter_for(size),
{
    assert(size.width * size.height <= 0xffff_ffff * 0xffff_ffff) by (nonlinear_arith)
        requires
            size.width <= 0xffff_ffff,
            size.height <= 0xffff_ffff,
    ;
    if size.width as u64 * size.height as u64 > 2_000_000 {
        ResizeFilter::Triangle
    } else {
        ResizeFilter::Lanczos3
    }
}

impl ImagePipeline {
    /// Decides what is to be done for an image in this frame and notes it.
    /// `resolved` is the file that the caller found for the image's
    /// destination; it counts only where `needs_resolution` was true.
    pub fn place_image(&mut self, info: &ImageInfo, scroll: u16, area: Rect, resolved: Option<String>) -> (plan:
        ImagePlan)
        requires
            area.fits(),
        ensures
            plan@ == plan_for(
                old(self)@,
                info@,
                scroll as int,
                area,
                match resolved {
                    Some(r) => Some(r@),
                    None => None,
                },
            ),
            final(self)@ == pipeline_after(
                old(self)@,
                info@,
                scroll as int,
                area,
                match resolved {
                    Some(r) => Some(r@),
                    None => None,
                },
            ),
    {
        let ghost p = self@;
        let ghost res: Option<Seq<char>> = match &resolved {
            Some(r) => Some(r@),
            None => None,
        };
        if hidden(info, scroll, area) {
            return ImagePlan::Hidden;
        }
        let path: String = match self.files.get(info.url.as_str()) {
            Some(cached) => {
                assert(p.files.insert(info@.url, cached@) =~= p.files);
                cached.clone()
            },
            None => match resolved {
                Some(found) => {
                    let ghost before = self.files@;
                    let copy = found.clone();
                    self.files.insert(info.url.clone(), found);
                    assert(self.files@.map_values(|s: String| s@) =~= before.map_values(
                        |s: String| s@,
                    ).insert(info@.url, copy@));
                    copy
                },
                None => {
                    return ImagePlan::Unresolved;
                },
            },
        };
        assert(file_of(p, info@.url, res) == Some(path@));
        let ghost cached = PipelineView { files: p.files.insert(info@.url, path@), ..p };
        assert(self@ == cached);
        if !self.decoded.contains_key(path.as_str()) {
            if self.in_flight.contains(path.as_str()) {
                return ImagePlan::Pending;
            }
            self.in_flight.insert(path.clone());
            return ImagePlan::Decode(path);
        }
        let target = target_of(info, area);
        let size: Option<Dimensions> = *self.decoded.get(path.as_str()).unwrap();
        let stale = match self.resized.get(path.as_str()) {
            Some(d) => d.width != target.width || d.height != target.height,
            None => true,
        };
        let resize = match size {
            Some(dims) => if stale {
                self.resized.insert(path.clone(), target);
                Some(
                    ResizeRequest {
                        width: target.width,
                        height: target.height,
                        filter: choose_filter(dims),
                    },
                )
            } else {
                None
            },
            None => None,
        };
        assert(resize == resize_for(p, path@, target));
        let has_bitmap = self.resized.contains_key(path.as_str());
        let first = narrow(info.start_line) as i64;
        let rows = narrow(info.line_count) as i64;
        let screen_y: i64 = area.y as i64 + first - scroll as i64;
        let top: i64 = if screen_y > area.y as i64 {
            screen_y
        } else {
            area.y as i64
        };
        let limit: i64 = area.y as i64 + area.height as i64;
        let bottom: i64 = if screen_y + rows < limit {
            screen_y + rows
        } else {
            limit
        };
        let job = if top < bottom && size.is_some() {
            let y_offset = (top - screen_y) as u16;
            let backend = if self.has_picker && y_offset == 0 {
                let create = !self.protocols.contains(path.as_str()) && size.is_some();
                if create {
                    self.protocols.insert(path.clone());
                }
                let draw = self.protocols.contains(path.as_str());
                if draw {
                    self.shown.insert(path.clone());
                }
                Backend::Protocol { create, draw }
            } else if self.has_picker {
                Backend::Blank
            } else {
                Backend::HalfBlock { draw: has_bitmap }
            };
            Some(
                ImageJob {
                    rect: Rect {
                        x: area.x,
                        y: top as u16,
                        width: target.width as u16,
                        height: (bottom - top) as u16,
                    },
                    y_offset,
                    full_cols: target.width as u16,
                    backend,
                },
            )
        } else {
            None
        };
        assert(job == job_for(p, info@, path@, scroll as int, area));
        ImagePlan::Ready(ImageWork { path, resize, job })
    }
}

/// A step of the pipeline that is no decode result.
pub enum PipelineStep {
    Begin(Rect),
    Place { info: ImageInfoView, scroll: int, area: Rect, resolved: Option<Seq<char>> },
    End,
}

/// The pipeline after a step.
pub open spec fn stepped(p: PipelineView, step: PipelineStep) -> PipelineView {
    match step {
        PipelineStep::Begin(area) => pipeline_begun(p, area),
        PipelineStep::Place { info, scroll, area, resolved } => pipeline_after(
            p,
            info,
            scroll,
            area,
            resolved,
        ),
        PipelineStep::End => pipeline_ended(p),
    }
}

/// Whether the step sends `path` to decode.
pub open spec fn dispatches(p: PipelineView, step: PipelineStep, path: Seq<char>) -> bool {
    match step {
        PipelineStep::Place { info, scroll, area, resolved } => plan_for(
            p,
            info,
            scroll,
            area,
            resolved,
        ) == PlanView::Decode(path),
        _ => false,
    }
}

/// How often the steps from `k` on send `path` to decode.
pub open spec fn dispatch_count(p: PipelineView, steps: Seq<PipelineStep>, k: int, path: Seq<char>) -> nat
    decreases steps.len() - k,
{
    if k < 0 || k >= steps.len() {
        0
    } else {
        (if dispatches(p, steps[k], path) {
            1nat
        } else {
            0nat
        }) + dispatch_count(stepped(p, steps[k]), steps, k + 1, path)
    }
}

/// A file that is being decoded is not sent to decode again, whatever
/// frames are drawn and images placed, as long as no decode result arrives.
pub proof fn lemma_no_dispatch_in_flight(
    p: PipelineView,
    steps: Seq<PipelineStep>,
    k: int,
    path: Seq<char>,
)
    requires
        0 <= k,
        p.in_flight.contains(path),
    ensures
        dispatch_count(p, steps, k, path) == 0,
    decreases steps.len() - k,
{
    if k < steps.len() {
        let next = stepped(p, steps[k]);
        assert(next.in_flight.contains(path));
        lemma_no_dispatch_in_flight(next, steps, k + 1, path);
    }
}

/// A file is sent to decode at most once over any run of frames and image
/// placements between two decode results.
pub proof fn lemma_at_most_one_dispatch(
    p: PipelineView,
    steps: Seq<PipelineStep>,
    k: int,
    path: Seq<char>,
)
    requires
        0 <= k,
    ensures
        dispatch_count(p, steps, k, path) <= 1,
    decreases steps.len() - k,
{
    if k < steps.len() {
        let next = stepped(p, steps[k]);
        if dispatches(p, steps[k], path) {
            assert(next.in_flight.contains(path));
            lemma_no_dispatch_in_flight(next, steps, k + 1, path);
        } else {
            lemma_at_most_one_dispatch(next, steps, k + 1, path);
        }
    }
}

/// A file that was decoded, or that failed to decode, is not sent to decode
/// again, whatever frames are drawn and images placed.
pub proof fn lemma_no_dispatch_once_decoded(
    p: PipelineView,
    steps: Seq<PipelineStep>,
    k: int,
    path: Seq<char>,
)
    requires
        0 <= k,
        p.decoded.dom().contains(path),
    ensures
        dispatch_count(p, steps, k, path) == 0,
    decreases steps.len() - k,
{
    if k < steps.len() {
        let next = stepped(p, steps[k]);
        assert(next.decoded == p.decoded);
        lemma_no_dispatch_once_decoded(next, steps, k + 1, path);
    }
}

/// A scaled bitmap is good for its exact target size only: for an image
/// that is decoded, the plan asks for a resize unless the bitmap was scaled
/// to the target size, and afterwards the size noted is the target size.
pub proof fn lemma_resize_follows_the_target(
    p: PipelineView,
    info: ImageInfoView,
    scroll: int,
    area: Rect,
    resolved: Option<Seq<char>>,
)
    ensures
        match plan_for(p, info, scroll, area, resolved) {
            PlanView::Ready(work) => p.decoded[work.path].is_some() ==> {
                &&& work.resize.is_none() == (p.resized.dom().contains(work.path)
                    && p.resized[work.path] == target_size(info, area))
                &&& pipeline_after(p, info, scroll, area, resolved).resized.dom().contains(
                    work.path,
                )
                &&& pipeline_after(p, info, scroll, area, resolved).resized[work.path]
                    == target_size(info, area)
            },
            _ => true,
        },
{
}

/// A change of the width or the height of the render area leaves no
/// protocol resource.
pub proof fn lemma_area_change_drops_protocols(p: PipelineView, area: Rect)
    requires
        p.area.width != area.width || p.area.height != area.height,
    ensures
        pipeline_begun(p, area).protocols == Set::<Seq<char>>::empty(),
{
}

/// A file that failed to decode keeps its placeholder: nothing is resized,
/// nothing is drawn or cleared, no protocol resource is made, and the
/// pipeline only remembers the file of the destination.
pub proof fn lemma_failed_decode_keeps_placeholder(
    p: PipelineView,
    info: ImageInfoView,
    scroll: int,
    area: Rect,
    resolved: Option<Seq<char>>,
)
    requires
        !is_hidden(info, scroll, area),
        file_of(p, info.url, resolved).is_some(),
        p.decoded.dom().contains(file_of(p, info.url, resolved).unwrap()),
        p.decoded[file_of(p, info.url, resolved).unwrap()].is_none(),
    ensures
        plan_for(p, info, scroll, area, resolved) == PlanView::Ready(
            WorkView { path: file_of(p, info.url, resolved).unwrap(), resize: None, job: None },
        ),
        pipeline_after(p, info, scroll, area, resolved) == (PipelineView {
            files: p.files.insert(info.url, file_of(p, info.url, resolved).unwrap()),
            ..p
        }),
{
}

/// A resolution that failed is not remembered: the pipeline is as it was,
/// and the next reference resolves again.
pub proof fn lemma_failed_resolution_is_not_cached(
    p: PipelineView,
    info: ImageInfoView,
    scroll: int,
    area: Rect,
)
    requires
        !p.files.dom().contains(info.url),
    ensures
        pipeline_after(p, info, scroll, area, None) == p,
        plan_for(p, info, scroll, area, None) == if is_hidden(info, scroll, area) {
            PlanView::Hidden
        } else {
            PlanView::Unresolved
        },
{
}

/// A decode result as the pipeline takes it in.
#[derive(Debug)]
pub struct DecodedImage {
    pub path: String,
    /// The size of the decoded bitmap; `None` where decoding failed.
    pub image: Option<Dimensions>,
    /// A destination that resolves to the file.
    pub url_hint: Option<String>,
}

/// The pipeline after the first `k` results were taken in.
pub open spec fn delivered_upto(p: PipelineView, results: Seq<DecodedImage>, k: int) -> PipelineView
    decreases k,
{
    if k <= 0 {
        p
    } else {
        pipeline_delivered(
            delivered_upto(p, results, k - 1),
            results[k - 1].path@,
            results[k - 1].image,
            match results[k - 1].url_hint {
                Some(u) => Some(u@),
                None => None,
            },
        )
    }
}

/// The state of the preview pane.
pub struct PreviewState {
    pub scroll_offset: u16,
    pub content_height: u16,
    /// Clickable link regions from the last render.
    pub click_links: Vec<ClickableLink>,
    pub images: ImagePipeline,
}

/// The largest scroll offset: the content height less the viewport height.
pub open spec fn max_scroll(content_height: int, viewport_height: int) -> int {
    if content_height > viewport_height {
        content_height - viewport_height
    } else {
        0
    }
}

/// The offset after scrolling up by `amount`.
pub open spec fn scrolled_up(offset: int, amount: int) -> int {
    if offset > amount {
        offset - amount
    } else {
        0
    }
}

/// The offset after scrolling down by `amount`.
pub open spec fn scrolled_down(offset: int, amount: int, content_height: int, viewport_height: int) -> int {
    if offset + amount < max_scroll(content_height, viewport_height) {
        offset + amount
    } else {
        max_scroll(content_height, viewport_height)
    }
}

/// The rows that a page key scrolls by.
pub open spec fn page_rows(viewport_height: int) -> int {
    if viewport_height > 2 {
        viewport_height - 2
    } else {
        0
    }
}

/// The scroll offset after a key of the preview: the arrows scroll by one
/// row, the page keys by a page, and the others go to the top or to the
/// largest offset.
pub open spec fn offset_after(
    command: PreviewCommand,
    offset: int,
    content_height: int,
    viewport_height: int,
) -> int {
    match command {
        PreviewCommand::ScrollUp => scrolled_up(offset, 1),
        PreviewCommand::ScrollDown => scrolled_down(offset, 1, content_height, viewport_height),
        PreviewCommand::PageUp => scrolled_up(offset, page_rows(viewport_height)),
        PreviewCommand::PageDown => scrolled_down(
            offset,
            page_rows(viewport_height),
            content_height,
            viewport_height,
        ),
        PreviewCommand::Top => 0,
        PreviewCommand::Bottom => max_scroll(content_height, viewport_height),
        PreviewCommand::Nothing => offset,
    }
}

/// The width that the preview lays its content out in.
pub fn layout_width(area: Rect) -> (w: usize)
    ensures
        w == if area.width > 2 {
            area.width - 2
        } else {
            0
        },
{
    if area.width > 2 {
        (area.width - 2) as usize
    } else {
        0
    }
}

impl PreviewState {
    /// The state of a preview that has shown nothing yet.
    pub fn new(has_picker: bool) -> (s: PreviewState)
        ensures
            s.scroll_offset == 0,
            s.content_height == 0,
            s.click_links@.len() == 0,
            s.images@ == fresh_pipeline(has_picker),
    {
        PreviewState {
            scroll_offset: 0,
            content_height: 0,
            click_links: Vec::new(),
            images: ImagePipeline::new(has_picker),
        }
    }

    /// Scrolls up by `amount` rows, no further than the top.
    pub fn scroll_up(&mut self, amount: u16)
        ensures
            final(self).scroll_offset == scrolled_up(old(self).scroll_offset as int, amount as int),
            final(self).content_height == old(self).content_height,
            final(self).click_links == old(self).click_links,
            final(self).images == old(self).images,
    {
        self.scroll_offset = if self.scroll_offset > amount {
            self.scroll_offset - amount
        } else {
            0
        };
    }

    /// Scrolls down by `amount` rows, no further than the end of the content.
    pub fn scroll_down(&mut self, amount: u16, viewport_height: u16)
        ensures
            final(self).scroll_offset == scrolled_down(
                old(self).scroll_offset as int,
                amount as int,
                old(self).content_height as int,
                viewport_height as int,
            ),
            final(self).content_height == old(self).content_height,
            final(self).click_links == old(self).click_links,
            final(self).images == old(self).images,
    {
        let limit: u16 = if self.content_height > viewport_height {
            self.content_height - viewport_height
        } else {
            0
        };
        let wanted: u32 = self.scroll_offset as u32 + amount as u32;
        self.scroll_offset = if wanted < limit as u32 {
            wanted as u16
        } else {
            limit
        };
    }

    /// Scrolls up by a page: the viewport less two rows.
    pub fn page_up(&mut self, viewport_height: u16)
        ensures
            final(self).scroll_offset == scrolled_up(
                old(self).scroll_offset as int,
                page_rows(viewport_height as int),
            ),
            final(self).content_height == old(self).content_height,
            final(self).click_links == old(self).click_links,
            final(self).images == old(self).images,
    {
        self.scroll_up(
            if viewport_height > 2 {
                viewport_height - 2
            } else {
                0
            },
        );
    }

    /// Scrolls down by a page: the viewport less two rows.
    pub fn page_down(&mut self, viewport_height: u16)
        ensures
            final(self).scroll_offset == scrolled_down(
                old(self).scroll_offset as int,
                page_rows(viewport_height as int),
                old(self).content_height as int,
                viewport_height as int,
            ),
            final(self).content_height == old(self).content_height,
            final(self).click_links == old(self).click_links,
            final(self).images == old(self).images,
    {
        self.scroll_down(
            if viewport_height > 2 {
                viewport_height - 2
            } else {
                0
            },
            viewport_height,
        );
    }

    /// Carries out what a key does in the preview.
    pub fn apply(&mut self, command: PreviewCommand, viewport_height: u16)
        ensures
            final(self).scroll_offset == offset_after(
                command,
                old(self).scroll_offset as int,
                old(self).content_height as int,
                viewport_height as int,
            ),
            final(self).content_height == old(self).content_height,
            final(self).click_links == old(self).click_links,
            final(self).images == old(self).images,
    {
        match command {
            PreviewCommand::ScrollUp => self.scroll_up(1),
            PreviewCommand::ScrollDown => self.scroll_down(1, viewport_height),
            PreviewCommand::PageUp => self.page_up(viewport_height),
            PreviewCommand::PageDown => self.page_down(viewport_height),
            PreviewCommand::Top => {
                self.scroll_offset = 0;
            },
            PreviewCommand::Bottom => {
                self.scroll_offset = if self.content_height > viewport_height {
                    self.content_height - viewport_height
                } else {
                    0
                };
            },
            PreviewCommand::Nothing => {},
        }
    }

    /// Finds the destination of the link at a screen position, if any.
    pub fn url_at(&self, x: u16, y: u16) -> (r: Option<&str>)
        ensures
            match r {
                Some(u) => url_from(link_views(self.click_links@), x as int, y as int, 0) == Some(
                    u@,
                ),
                None => url_from(link_views(self.click_links@), x as int, y as int, 0).is_none(),
            },
    {
        url_at(&self.click_links, x, y)
    }

    /// Notes the height of the rendered content, no more than a screen
    /// coordinate can name.
    pub fn set_content_height(&mut self, line_count: usize)
        ensures
            final(self).content_height == narrowed(line_count as int),
            final(self).scroll_offset == old(self).scroll_offset,
            final(self).click_links == old(self).click_links,
            final(self).images == old(self).images,
    {
        self.content_height = narrow(line_count);
    }

    /// Takes in the decode results that arrived since the last tick.
    pub fn poll_decoded_images(&mut self, results: Vec<DecodedImage>)
        ensures
            final(self).images@ == delivered_upto(
                old(self).images@,
                results@,
                results@.len() as int,
            ),
            final(self).scroll_offset == old(self).scroll_offset,
            final(self).content_height == old(self).content_height,
            final(self).click_links == old(self).click_links,
    {
        let mut k: usize = 0;
        while k < results.len()
            invariant
                k <= results.len(),
                self.images@ == delivered_upto(old(self).images@, results@, k as int),
                self.scroll_offset == old(self).scroll_offset,
                self.content_height == old(self).content_height,
                self.click_links == old(self).click_links,
            decreases results.len() - k,
        {
            let r = &results[k];
            self.images.deliver(r.path.as_str(), r.image, r.url_hint.clone());
            k += 1;
        }
    }
}

} // verus!
