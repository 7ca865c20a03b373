//! Print options and the single-page ("mono") paper sizing.
//!
//! Lengths are whole numbers of a fine unit, 1/960000 inch: a CSS pixel
//! (1/96 inch) is exactly 10000 units, and any length given to four decimals
//! of an inch is a whole number of units. Scale factors are in millionths.
use vstd::prelude::*;

verus! {

pub const UNITS_PER_INCH: i64 = 960000;

pub const UNITS_PER_PIXEL: i64 = 10000;

/// The margin that mono sizing takes for a side that has none set: 0.4 inch.
pub const MONO_DEFAULT_MARGIN: i64 = 384000;

/// The margin of every side unless one is given: 1 cm, taken as 0.3937 inch.
pub const DEFAULT_MARGIN: i64 = 377952;

/// Viewport of the rendering session: an A4 sheet less two 0.4 inch margins,
/// in pixels.
pub const VIEWPORT_WIDTH: u32 = 717;

pub const VIEWPORT_HEIGHT: u32 = 1046;

/// The effective margin in mono sizing.
pub open spec fn mono_margin(m: Option<i64>) -> int {
    match m {
        Some(v) => v as int,
        None => MONO_DEFAULT_MARGIN as int,
    }
}

/// One paper dimension in mono mode: the measured content plus the margins on
/// both of its sides.
pub open spec fn mono_extent(content: int, a: Option<i64>, b: Option<i64>) -> int {
    content + mono_margin(a) + mono_margin(b)
}

pub open spec fn fits_i64(x: int) -> bool {
    i64::MIN <= x <= i64::MAX
}

fn extent(content: i64, a: Option<i64>, b: Option<i64>) -> (r: Option<i64>)
    ensures
        r == (if fits_i64(mono_extent(content as int, a, b)) {
            Some(mono_extent(content as int, a, b) as i64)
        } else {
            None::<i64>
        }),
{
    let ma: i64 = match a {
        Some(v) => v,
        None => MONO_DEFAULT_MARGIN,
    };
    let mb: i64 = match b {
        Some(v) => v,
        None => MONO_DEFAULT_MARGIN,
    };
    let sum: i128 = content as i128 + ma as i128 + mb as i128;
    if i64::MIN as i128 <= sum && sum <= i64::MAX as i128 {
        Some(sum as i64)
    } else {
        None
    }
}

/// Paper width and height that fit the measured content of a page on one
/// sheet: the content size plus the margins, a side without a margin taking
/// 0.4 inch. `None` where a dimension does not fit in an `i64`.
pub fn compute_mono_dimensions(
    content_width: i64,
    content_height: i64,
    margin_left: Option<i64>,
    margin_right: Option<i64>,
    margin_top: Option<i64>,
    margin_bottom: Option<i64>,
) -> (r: Option<(i64, i64)>)
    ensures
        ({
            let w = mono_extent(content_width as int, margin_left, margin_right);
            let h = mono_extent(content_height as int, margin_top, margin_bottom);
            r == if fits_i64(w) && fits_i64(h) {
                Some((w as i64, h as i64))
            } else {
                None::<(i64, i64)>
            }
        }),
{
    match extent(content_width, margin_left, margin_right) {
        Some(w) => match extent(content_height, margin_top, margin_bottom) {
            Some(h) => Some((w, h)),
            None => None,
        },
        None => None,
    }
}

/// Mono sizing is a function of its inputs, and grows with the content and
/// with each margin: more content or a wider margin never gives a smaller
/// sheet.
pub proof fn lemma_mono_extent_monotonic(
    c1: int,
    a1: Option<i64>,
    b1: Option<i64>,
    c2: int,
    a2: Option<i64>,
    b2: Option<i64>,
)
    requires
        c1 <= c2,
        mono_margin(a1) <= mono_margin(a2),
        mono_margin(b1) <= mono_margin(b2),
    ensures
        mono_extent(c1, a1, b1) <= mono_extent(c2, a2, b2),
        c1 == c2 && a1 == a2 && b1 == b2 ==> mono_extent(c1, a1, b1) == mono_extent(c2, a2, b2),
{
}

/// Scale factor 1, in millionths.
pub const UNIT_SCALE: i64 = 1000000;

/// The print settings shared by every page of a run, as the user gave them.
/// A margin left unset takes the default of 1 cm.
#[derive(Clone, Debug)]
pub struct PdfConfig {
    pub landscape: bool,
    pub disable_print_background: bool,
    pub paper_width: Option<i64>,
    pub paper_height: Option<i64>,
    pub margin_top: Option<i64>,
    pub margin_bottom: Option<i64>,
    pub margin_left: Option<i64>,
    pub margin_right: Option<i64>,
    pub page_ranges: Option<String>,
    pub display_header_footer: bool,
    pub header_template: Option<String>,
    pub footer_template: Option<String>,
    pub disable_prefer_css_page_size: bool,
    pub generate_tagged_pdf: Option<bool>,
    pub scale: Option<i64>,
}

/// The options of one render call.
#[derive(Clone, Debug)]
pub struct PdfRenderOptions {
    pub landscape: bool,
    pub display_header_footer: bool,
    pub print_background: bool,
    pub margin_top: Option<i64>,
    pub margin_bottom: Option<i64>,
    pub margin_left: Option<i64>,
    pub margin_right: Option<i64>,
    pub paper_width: Option<i64>,
    pub paper_height: Option<i64>,
    pub scale: Option<i64>,
    pub page_ranges: Option<String>,
    pub header_template: Option<String>,
    pub footer_template: Option<String>,
    pub prefer_css_page_size: bool,
    pub generate_tagged_pdf: Option<bool>,
}

impl PdfRenderOptions {
    /// The options of a plain render: backgrounds printed, the page's own CSS
    /// page size preferred, and everything else left to the engine.
    pub fn standard() -> (r: PdfRenderOptions)
        ensures
            r.print_background,
            r.prefer_css_page_size,
            !r.landscape,
            !r.display_header_footer,
            r.margin_top == None::<i64>,
            r.margin_bottom == None::<i64>,
            r.margin_left == None::<i64>,
            r.margin_right == None::<i64>,
            r.paper_width == None::<i64>,
            r.paper_height == None::<i64>,
            r.scale == None::<i64>,
            r.page_ranges == None::<String>,
            r.header_template == None::<String>,
            r.footer_template == None::<String>,
            r.generate_tagged_pdf == None::<bool>,
    {
        PdfRenderOptions {
            landscape: false,
            display_header_footer: false,
            print_background: true,
            margin_top: None,
            margin_bottom: None,
            margin_left: None,
            margin_right: None,
            paper_width: None,
            paper_height: None,
            scale: None,
            page_ranges: None,
            header_template: None,
            footer_template: None,
            prefer_css_page_size: true,
            generate_tagged_pdf: None,
        }
    }
}

pub open spec fn margin_or_default(m: Option<i64>) -> i64 {
    match m {
        Some(v) => v,
        None => DEFAULT_MARGIN,
    }
}

fn copy_text(o: &Option<String>) -> (r: Option<String>)
    ensures
        r == *o,
{
    match o {
        Some(s) => Some(s.clone()),
        None => None,
    }
}

fn margin_exec(m: Option<i64>) -> (r: i64)
    ensures
        r == margin_or_default(m),
{
    match m {
        Some(v) => v,
        None => DEFAULT_MARGIN,
    }
}

/// The render options of a page, built from the shared settings: every
/// margin set (an unset one at 1 cm), backgrounds and the CSS page size
/// unless disabled, and the rest as given.
pub fn render_options(config: &PdfConfig) -> (r: PdfRenderOptions)
    ensures
        r.landscape == config.landscape,
        r.display_header_footer == config.display_header_footer,
        r.print_background == !config.disable_print_background,
        r.margin_top == Some(margin_or_default(config.margin_top)),
        r.margin_bottom == Some(margin_or_default(config.margin_bottom)),
        r.margin_left == Some(margin_or_default(config.margin_left)),
        r.margin_right == Some(margin_or_default(config.margin_right)),
        r.paper_width == config.paper_width,
        r.paper_height == config.paper_height,
        r.scale == config.scale,
        r.page_ranges == config.page_ranges,
        r.header_template == config.header_template,
        r.footer_template == config.footer_template,
        r.prefer_css_page_size == !config.disable_prefer_css_page_size,
        r.generate_tagged_pdf == config.generate_tagged_pdf,
{
    PdfRenderOptions {
        landscape: config.landscape,
        display_header_footer: config.display_header_footer,
        print_background: !config.disable_print_background,
        margin_top: Some(margin_exec(config.margin_top)),
        margin_bottom: Some(margin_exec(config.margin_bottom)),
        margin_left: Some(margin_exec(config.margin_left)),
        margin_right: Some(margin_exec(config.margin_right)),
        paper_width: config.paper_width,
        paper_height: config.paper_height,
        scale: config.scale,
        page_ranges: copy_text(&config.page_ranges),
        header_template: copy_text(&config.header_template),
        footer_template: copy_text(&config.footer_template),
        prefer_css_page_size: !config.disable_prefer_css_page_size,
        generate_tagged_pdf: config.generate_tagged_pdf,
    }
}

/// Turns the options of a page into those of one sheet that fits its measured
/// content: paper sized by `compute_mono_dimensions`, no scale, portrait, and
/// the first page only (some pages' CSS adds an empty second one). Where a
/// dimension does not fit, returns `false` and leaves the options as they were.
pub fn apply_mono(opts: &mut PdfRenderOptions, content_width: i64, content_height: i64) -> (ok:
    bool)
    ensures
        ({
            let w = mono_extent(content_width as int, old(opts).margin_left, old(opts).margin_right);
            let h = mono_extent(content_height as int, old(opts).margin_top, old(opts).margin_bottom);
            &&& ok == (fits_i64(w) && fits_i64(h))
            &&& ok ==> {
                &&& final(opts).paper_width == Some(w as i64)
                &&& final(opts).paper_height == Some(h as i64)
                &&& final(opts).scale == None::<i64>
                &&& !final(opts).landscape
                &&& final(opts).page_ranges is Some
                &&& final(opts).page_ranges->Some_0@ == "1"@
                &&& final(opts).margin_top == old(opts).margin_top
                &&& final(opts).margin_bottom == old(opts).margin_bottom
                &&& final(opts).margin_left == old(opts).margin_left
                &&& final(opts).margin_right == old(opts).margin_right
                &&& final(opts).display_header_footer == old(opts).display_header_footer
                &&& final(opts).print_background == old(opts).print_background
                &&& final(opts).header_template == old(opts).header_template
                &&& final(opts).footer_template == old(opts).footer_template
                &&& final(opts).prefer_css_page_size == old(opts).prefer_css_page_size
                &&& final(opts).generate_tagged_pdf == old(opts).generate_tagged_pdf
            }
            &&& !ok ==> *final(opts) == *old(opts)
        }),
{
    match compute_mono_dimensions(
        content_width,
        content_height,
        opts.margin_left,
        opts.margin_right,
        opts.margin_top,
        opts.margin_bottom,
    ) {
        Some((w, h)) => {
            opts.scale = None;
            opts.landscape = false;
            opts.paper_width = Some(w);
            opts.paper_height = Some(h);
            opts.page_ranges = Some(String::from_str("1"));
            true
        },
        None => false,
    }
}

/// Size and device scale of the session's viewport.
#[derive(Clone, Copy, Debug, PartialEq, Eq, Structural)]
pub struct ViewportSize {
    pub width: u32,
    pub height: u32,
    pub device_scale_factor: i64,
}

/// A length in whole pixels, cut towards zero and held to the range of a `u32`.
pub open spec fn whole_pixels(len: i64) -> u32 {
    if len <= 0 {
        0
    } else if len / UNITS_PER_PIXEL > u32::MAX {
        u32::MAX
    } else {
        (len / UNITS_PER_PIXEL) as u32
    }
}

fn whole_pixels_exec(len: i64) -> (r: u32)
    ensures
        r == whole_pixels(len),
{
    if len <= 0 {
        0
    } else if len / UNITS_PER_PIXEL > u32::MAX as i64 {
        u32::MAX
    } else {
        (len / UNITS_PER_PIXEL) as u32
    }
}

/// The viewport of the rendering session: the A4 default, with the scale as
/// device scale factor and a fixed paper size as the viewport size where they
/// are given.
pub fn session_viewport(scale: Option<i64>, paper_width: Option<i64>, paper_height: Option<i64>) -> (r:
    ViewportSize)
    ensures
        r.device_scale_factor == (match scale {
            Some(s) => s,
            None => UNIT_SCALE,
        }),
        r.width == (match paper_width {
            Some(w) => whole_pixels(w),
            None => VIEWPORT_WIDTH,
        }),
        r.height == (match paper_height {
            Some(h) => whole_pixels(h),
            None => VIEWPORT_HEIGHT,
        }),
{
    let mut v = ViewportSize {
        width: VIEWPORT_WIDTH,
        height: VIEWPORT_HEIGHT,
        device_scale_factor: UNIT_SCALE,
    };
    if let Some(s) = scale {
        v.device_scale_factor = s;
    }
    if let Some(w) = paper_width {
        v.width = whole_pixels_exec(w);
    }
    if let Some(h) = paper_height {
        v.height = whole_pixels_exec(h);
    }
    v
}

} // verus!
