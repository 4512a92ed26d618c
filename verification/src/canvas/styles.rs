//! How the styles of a canvas are named by the drawing library.
use vstd::prelude::*;

verus! {

/// How a canvas composites what it draws.
#[derive(Clone, Copy, Debug, PartialEq, Eq, Structural)]
pub enum CompositionStyle {
    SourceIn,
    SourceOut,
    SourceOver,
    SourceAtop,
    DestinationIn,
    DestinationOut,
    DestinationOver,
    DestinationAtop,
    Copy,
    Lighter,
    Xor,
    Clear,
}

/// How a canvas blends what it draws.
#[derive(Clone, Copy, Debug, PartialEq, Eq, Structural)]
pub enum BlendingStyle {
    Multiply,
    Screen,
    Overlay,
    Darken,
    Lighten,
    ColorDodge,
    ColorBurn,
    HardLight,
    SoftLight,
    Difference,
    Exclusion,
    Hue,
    Saturation,
    Color,
    Luminosity,
}

#[derive(Clone, Copy, Debug, PartialEq, Eq, Structural)]
pub enum CompositionOrBlending {
    Composition(CompositionStyle),
    Blending(BlendingStyle),
}

/// The modes of the drawing library.
#[derive(Clone, Copy, Debug, PartialEq, Eq, Structural)]
pub enum BlendMode {
    Clear,
    Src,
    Dst,
    SrcOver,
    DstOver,
    SrcIn,
    DstIn,
    SrcOut,
    DstOut,
    SrcAtop,
    DstAtop,
    Xor,
    Plus,
    Modulate,
    Screen,
    Overlay,
    Darken,
    Lighten,
    ColorDodge,
    ColorBurn,
    HardLight,
    SoftLight,
    Difference,
    Exclusion,
    Multiply,
    Hue,
    Saturation,
    Color,
    Luminosity,
}

pub open spec fn blend(op: CompositionOrBlending) -> BlendMode {
    match op {
        CompositionOrBlending::Composition(style) => match style {
            CompositionStyle::Clear => BlendMode::Clear,
            CompositionStyle::Copy => BlendMode::Src,
            CompositionStyle::SourceOver => BlendMode::SrcOver,
            CompositionStyle::DestinationOver => BlendMode::DstOver,
            CompositionStyle::SourceIn => BlendMode::SrcIn,
            CompositionStyle::DestinationIn => BlendMode::DstIn,
            CompositionStyle::SourceOut => BlendMode::SrcOut,
            CompositionStyle::DestinationOut => BlendMode::DstOut,
            CompositionStyle::SourceAtop => BlendMode::SrcAtop,
            CompositionStyle::DestinationAtop => BlendMode::DstAtop,
            CompositionStyle::Xor => BlendMode::Xor,
            CompositionStyle::Lighter => BlendMode::Plus,
        },
        CompositionOrBlending::Blending(style) => match style {
            BlendingStyle::Multiply => BlendMode::Multiply,
            BlendingStyle::Screen => BlendMode::Screen,
            BlendingStyle::Overlay => BlendMode::Overlay,
            BlendingStyle::Darken => BlendMode::Darken,
            BlendingStyle::Lighten => BlendMode::Lighten,
            BlendingStyle::ColorDodge => BlendMode::ColorDodge,
            BlendingStyle::ColorBurn => BlendMode::ColorBurn,
            BlendingStyle::HardLight => BlendMode::HardLight,
            BlendingStyle::SoftLight => BlendMode::SoftLight,
            BlendingStyle::Difference => BlendMode::Difference,
            BlendingStyle::Exclusion => BlendMode::Exclusion,
            BlendingStyle::Hue => BlendMode::Hue,
            BlendingStyle::Saturation => BlendMode::Saturation,
            BlendingStyle::Color => BlendMode::Color,
            BlendingStyle::Luminosity => BlendMode::Luminosity,
        },
    }
}

/// Map a canvas composite/blend operator to a blend mode.
pub fn composite_blend(op: CompositionOrBlending) -> (r: BlendMode)
    ensures
        r == blend(op),
{
    match op {
        CompositionOrBlending::Composition(style) => match style {
            CompositionStyle::Clear => BlendMode::Clear,
            CompositionStyle::Copy => BlendMode::Src,
            CompositionStyle::SourceOver => BlendMode::SrcOver,
            CompositionStyle::DestinationOver => BlendMode::DstOver,
            CompositionStyle::SourceIn => BlendMode::SrcIn,
            CompositionStyle::DestinationIn => BlendMode::DstIn,
            CompositionStyle::SourceOut => BlendMode::SrcOut,
            CompositionStyle::DestinationOut => BlendMode::DstOut,
            CompositionStyle::SourceAtop => BlendMode::SrcAtop,
            CompositionStyle::DestinationAtop => BlendMode::DstAtop,
            CompositionStyle::Xor => BlendMode::Xor,
            CompositionStyle::Lighter => BlendMode::Plus,
        },
        CompositionOrBlending::Blending(style) => match style {
            BlendingStyle::Multiply => BlendMode::Multiply,
            BlendingStyle::Screen => BlendMode::Screen,
            BlendingStyle::Overlay => BlendMode::Overlay,
            BlendingStyle::Darken => BlendMode::Darken,
            BlendingStyle::Lighten => BlendMode::Lighten,
            BlendingStyle::ColorDodge => BlendMode::ColorDodge,
            BlendingStyle::ColorBurn => BlendMode::ColorBurn,
            BlendingStyle::HardLight => BlendMode::HardLight,
            BlendingStyle::SoftLight => BlendMode::SoftLight,
            BlendingStyle::Difference => BlendMode::Difference,
            BlendingStyle::Exclusion => BlendMode::Exclusion,
            BlendingStyle::Hue => BlendMode::Hue,
            BlendingStyle::Saturation => BlendMode::Saturation,
            BlendingStyle::Color => BlendMode::Color,
            BlendingStyle::Luminosity => BlendMode::Luminosity,
        },
    }
}

/// No two operators share a blend mode.
pub proof fn law_blend_modes_are_distinct(a: CompositionOrBlending, b: CompositionOrBlending)
    requires
        blend(a) == blend(b),
    ensures
        a == b,
{
}

/// One color channel of what an operator makes of a source and a destination, both with
/// their alpha multiplied in, on a scale on which `one` is full. The sum is on the square
/// of that scale.
/// <https://www.w3.org/TR/compositing-1/#porterduffcompositingoperators>
pub open spec fn composited(
    style: CompositionStyle,
    source: int,
    source_alpha: int,
    backdrop: int,
    backdrop_alpha: int,
    one: int,
) -> int {
    match style {
        CompositionStyle::Clear => 0,
        CompositionStyle::Copy => source * one,
        CompositionStyle::SourceOver => source * one + backdrop * (one - source_alpha),
        CompositionStyle::DestinationOver => source * (one - backdrop_alpha) + backdrop * one,
        CompositionStyle::SourceIn => source * backdrop_alpha,
        CompositionStyle::DestinationIn => backdrop * source_alpha,
        CompositionStyle::SourceOut => source * (one - backdrop_alpha),
        CompositionStyle::DestinationOut => backdrop * (one - source_alpha),
        CompositionStyle::SourceAtop => source * backdrop_alpha + backdrop * (one - source_alpha),
        CompositionStyle::DestinationAtop => source * (one - backdrop_alpha) + backdrop
            * source_alpha,
        CompositionStyle::Xor => source * (one - backdrop_alpha) + backdrop * (one - source_alpha),
        CompositionStyle::Lighter => source * one + backdrop * one,
    }
}

/// The share of the source and that of the destination in what a mode of the drawing
/// library draws, for the modes that weigh the two by their alphas.
pub open spec fn shares(
    mode: BlendMode,
    source_alpha: int,
    backdrop_alpha: int,
    one: int,
) -> Option<(int, int)> {
    match mode {
        BlendMode::Clear => Some((0, 0)),
        BlendMode::Src => Some((one, 0)),
        BlendMode::Dst => Some((0, one)),
        BlendMode::SrcOver => Some((one, one - source_alpha)),
        BlendMode::DstOver => Some((one - backdrop_alpha, one)),
        BlendMode::SrcIn => Some((backdrop_alpha, 0)),
        BlendMode::DstIn => Some((0, source_alpha)),
        BlendMode::SrcOut => Some((one - backdrop_alpha, 0)),
        BlendMode::DstOut => Some((0, one - source_alpha)),
        BlendMode::SrcAtop => Some((backdrop_alpha, one - source_alpha)),
        BlendMode::DstAtop => Some((one - backdrop_alpha, source_alpha)),
        BlendMode::Xor => Some((one - backdrop_alpha, one - source_alpha)),
        BlendMode::Plus => Some((one, one)),
        _ => None,
    }
}

/// The mode that an operator is drawn with weighs source and destination as the operator
/// does, for every source and every destination.
pub proof fn law_operators_keep_their_formulas(
    style: CompositionStyle,
    source: int,
    source_alpha: int,
    backdrop: int,
    backdrop_alpha: int,
    one: int,
)
    ensures
        shares(
            blend(CompositionOrBlending::Composition(style)),
            source_alpha,
            backdrop_alpha,
            one,
        ) matches Some(share) && source * share.0 + backdrop * share.1 == composited(
            style,
            source,
            source_alpha,
            backdrop,
            backdrop_alpha,
            one,
        ),
{
    assert(source * 0 == 0 && backdrop * 0 == 0);
}

/// What blending makes of one color channel of a backdrop and a source, on a scale on
/// which `one` is full. The formula of soft-light is given for the darker half of the
/// sources.
/// <https://www.w3.org/TR/compositing-1/#blendingseparable>
pub open spec fn blended(style: BlendingStyle, backdrop: int, source: int, one: int) -> Option<int> {
    match style {
        BlendingStyle::Multiply => Some(backdrop * source / one),
        BlendingStyle::Screen => Some(backdrop + source - backdrop * source / one),
        BlendingStyle::Overlay => Some(hard(source, backdrop, one)),
        BlendingStyle::Darken => Some(if backdrop <= source { backdrop } else { source }),
        BlendingStyle::Lighten => Some(if backdrop >= source { backdrop } else { source }),
        BlendingStyle::ColorDodge => Some(
            if backdrop == 0 {
                0
            } else if source == one || backdrop * one / (one - source) >= one {
                one
            } else {
                backdrop * one / (one - source)
            },
        ),
        BlendingStyle::ColorBurn => Some(
            if backdrop == one {
                one
            } else if source == 0 || (one - backdrop) * one / source >= one {
                0
            } else {
                one - (one - backdrop) * one / source
            },
        ),
        BlendingStyle::HardLight => Some(hard(backdrop, source, one)),
        BlendingStyle::SoftLight => if 2 * source <= one {
            Some(backdrop - (one - 2 * source) * (backdrop * (one - backdrop) / one) / one)
        } else {
            None
        },
        BlendingStyle::Difference => Some(
            if backdrop >= source {
                backdrop - source
            } else {
                source - backdrop
            },
        ),
        BlendingStyle::Exclusion => Some(backdrop + source - 2 * backdrop * source / one),
        _ => None,
    }
}

/// What a light shining hard on a channel makes of it.
pub open spec fn hard(lit: int, light: int, one: int) -> int {
    if 2 * light <= one {
        lit * (2 * light) / one
    } else {
        lit + (2 * light - one) - lit * (2 * light - one) / one
    }
}

/// What a mode of the drawing library makes of one color channel, for the modes that take
/// each channel by itself and do more than to weigh.
pub open spec fn channel_of(mode: BlendMode, dst: int, src: int, one: int) -> Option<int> {
    match mode {
        BlendMode::Modulate => Some(dst * src / one),
        BlendMode::Multiply => Some(dst * src / one),
        BlendMode::Screen => Some(dst + src - dst * src / one),
        BlendMode::Overlay => Some(hard(src, dst, one)),
        BlendMode::Darken => Some(if dst <= src { dst } else { src }),
        BlendMode::Lighten => Some(if dst >= src { dst } else { src }),
        BlendMode::ColorDodge => Some(
            if dst == 0 {
                0
            } else if src == one || dst * one / (one - src) >= one {
                one
            } else {
                dst * one / (one - src)
            },
        ),
        BlendMode::ColorBurn => Some(
            if dst == one {
                one
            } else if src == 0 || (one - dst) * one / src >= one {
                0
            } else {
                one - (one - dst) * one / src
            },
        ),
        BlendMode::HardLight => Some(hard(dst, src, one)),
        BlendMode::SoftLight => if 2 * src <= one {
            Some(dst - (one - 2 * src) * (dst * (one - dst) / one) / one)
        } else {
            None
        },
        BlendMode::Difference => Some(
            if dst >= src {
                dst - src
            } else {
                src - dst
            },
        ),
        BlendMode::Exclusion => Some(dst + src - 2 * dst * src / one),
        _ => None,
    }
}

/// The parts of a color that come from the source; the others are those of the backdrop.
pub struct Parts {
    pub hue: bool,
    pub saturation: bool,
    pub luminosity: bool,
}

/// Which parts of a color an operator takes from the source.
/// <https://www.w3.org/TR/compositing-1/#blendingnonseparable>
pub open spec fn parts_of_source(style: BlendingStyle) -> Option<Parts> {
    match style {
        BlendingStyle::Hue => Some(Parts { hue: true, saturation: false, luminosity: false }),
        BlendingStyle::Saturation => Some(
            Parts { hue: false, saturation: true, luminosity: false },
        ),
        BlendingStyle::Color => Some(Parts { hue: true, saturation: true, luminosity: false }),
        BlendingStyle::Luminosity => Some(
            Parts { hue: false, saturation: false, luminosity: true },
        ),
        _ => None,
    }
}

/// Which parts of a color a mode of the drawing library takes from the source.
pub open spec fn parts_from_src(mode: BlendMode) -> Option<Parts> {
    match mode {
        BlendMode::Hue => Some(Parts { hue: true, saturation: false, luminosity: false }),
        BlendMode::Saturation => Some(Parts { hue: false, saturation: true, luminosity: false }),
        BlendMode::Color => Some(Parts { hue: true, saturation: true, luminosity: false }),
        BlendMode::Luminosity => Some(Parts { hue: false, saturation: false, luminosity: true }),
        _ => None,
    }
}

/// The mode that a blending operator is drawn with computes what the operator does: the
/// same channel for every backdrop and source, or, for the operators that mix colors as a
/// whole, the same parts of the source. Multiplying blends: it does not just weigh the
/// source by the backdrop, as modulating does, which drops what the backdrop leaves out.
pub proof fn law_blending_keeps_its_formula(
    style: BlendingStyle,
    backdrop: int,
    source: int,
    one: int,
)
    ensures
        ({
            let mode = blend(CompositionOrBlending::Blending(style));
            &&& channel_of(mode, backdrop, source, one) == blended(style, backdrop, source, one)
            &&& parts_from_src(mode) == parts_of_source(style)
            &&& shares(mode, 0, 0, one) is None
            &&& mode != BlendMode::Modulate
        }),
{
}

/// Whether an operator needs a layer of its own, so that it composites over the whole
/// clipped surface: every one but source-over does.
pub fn needs_layer(op: CompositionOrBlending) -> (r: bool)
    ensures
        r == (op != CompositionOrBlending::Composition(CompositionStyle::SourceOver)),
{
    !matches!(op, CompositionOrBlending::Composition(CompositionStyle::SourceOver))
}

#[derive(Clone, Copy, Debug, PartialEq, Eq, Structural)]
pub enum LineCapStyle {
    Butt,
    Round,
    Square,
}

#[derive(Clone, Copy, Debug, PartialEq, Eq, Structural)]
pub enum LineCap {
    Flat,
    Square,
    Round,
}

/// How far a line goes on beyond its end, in halves of its width, and whether what it goes
/// on with is round.
/// <https://html.spec.whatwg.org/multipage/canvas.html#dom-context-2d-linecap>
pub open spec fn reach(style: LineCapStyle) -> (int, bool) {
    match style {
        LineCapStyle::Butt => (0, false),
        LineCapStyle::Round => (1, true),
        LineCapStyle::Square => (1, false),
    }
}

/// The same, of a cap of the drawing library.
pub open spec fn cap_reach(cap: LineCap) -> (int, bool) {
    match cap {
        LineCap::Flat => (0, false),
        LineCap::Square => (1, false),
        LineCap::Round => (1, true),
    }
}

/// The end of a line.
pub fn line_cap(style: LineCapStyle) -> (r: LineCap)
    ensures
        cap_reach(r) == reach(style),
        r == match style {
            LineCapStyle::Butt => LineCap::Flat,
            LineCapStyle::Round => LineCap::Round,
            LineCapStyle::Square => LineCap::Square,
        },
{
    match style {
        LineCapStyle::Butt => LineCap::Flat,
        LineCapStyle::Round => LineCap::Round,
        LineCapStyle::Square => LineCap::Square,
    }
}

#[derive(Clone, Copy, Debug, PartialEq, Eq, Structural)]
pub enum FillRule {
    Nonzero,
    Evenodd,
}

#[derive(Clone, Copy, Debug, PartialEq, Eq, Structural)]
pub enum FillType {
    Winding,
    EvenOdd,
}

/// Whether a point that a path winds around so often is inside of it.
/// <https://html.spec.whatwg.org/multipage/canvas.html#fill-rule>
pub open spec fn is_inside(rule: FillRule, winding: int) -> bool {
    match rule {
        FillRule::Nonzero => winding != 0,
        FillRule::Evenodd => winding % 2 != 0,
    }
}

/// Whether the drawing library fills a point that a path winds around so often.
pub open spec fn is_filled(fill: FillType, winding: int) -> bool {
    match fill {
        FillType::Winding => winding != 0,
        FillType::EvenOdd => winding % 2 != 0,
    }
}

/// What counts as the inside of a path.
pub fn fill_type(rule: FillRule) -> (r: FillType)
    ensures
        forall|winding: int| #[trigger] is_filled(r, winding) == is_inside(rule, winding),
        r == match rule {
            FillRule::Nonzero => FillType::Winding,
            FillRule::Evenodd => FillType::EvenOdd,
        },
{
    match rule {
        FillRule::Nonzero => FillType::Winding,
        FillRule::Evenodd => FillType::EvenOdd,
    }
}

#[derive(Clone, Copy, Debug, PartialEq, Eq, Structural)]
pub enum Filter {
    Bilinear,
    Nearest,
}

#[derive(Clone, Copy, Debug, PartialEq, Eq, Structural)]
pub enum FilterMode {
    Nearest,
    Linear,
}

/// How many pixels of an image a pixel is made of, in each direction.
pub open spec fn taps(filter: Filter) -> int {
    match filter {
        Filter::Nearest => 1,
        Filter::Bilinear => 2,
    }
}

/// The same, of a mode of the drawing library.
pub open spec fn mode_taps(mode: FilterMode) -> int {
    match mode {
        FilterMode::Nearest => 1,
        FilterMode::Linear => 2,
    }
}

/// How an image is sampled.
pub fn sampling_for(filter: Filter) -> (r: FilterMode)
    ensures
        mode_taps(r) == taps(filter),
        r == match filter {
            Filter::Bilinear => FilterMode::Linear,
            Filter::Nearest => FilterMode::Nearest,
        },
{
    match filter {
        Filter::Bilinear => FilterMode::Linear,
        Filter::Nearest => FilterMode::Nearest,
    }
}

#[derive(Clone, Copy, Debug, PartialEq, Eq, Structural)]
pub enum LineJoinStyle {
    Round,
    Bevel,
    Miter,
}

#[derive(Clone, Copy, Debug, PartialEq, Eq, Structural)]
pub enum LineJoin {
    Miter,
    Round,
    Bevel,
}

/// Whether the corner of two lines is filled beyond the straight cut across it, and
/// whether it then ends in a point.
/// <https://html.spec.whatwg.org/multipage/canvas.html#dom-context-2d-linejoin>
pub open spec fn corner(style: LineJoinStyle) -> (bool, bool) {
    match style {
        LineJoinStyle::Bevel => (false, false),
        LineJoinStyle::Round => (true, false),
        LineJoinStyle::Miter => (true, true),
    }
}

/// The same, of a join of the drawing library.
pub open spec fn join_corner(join: LineJoin) -> (bool, bool) {
    match join {
        LineJoin::Miter => (true, true),
        LineJoin::Round => (true, false),
        LineJoin::Bevel => (false, false),
    }
}

/// The corner of two lines.
pub fn line_join(style: LineJoinStyle) -> (r: LineJoin)
    ensures
        join_corner(r) == corner(style),
        r == match style {
            LineJoinStyle::Round => LineJoin::Round,
            LineJoinStyle::Bevel => LineJoin::Bevel,
            LineJoinStyle::Miter => LineJoin::Miter,
        },
{
    match style {
        LineJoinStyle::Round => LineJoin::Round,
        LineJoinStyle::Bevel => LineJoin::Bevel,
        LineJoinStyle::Miter => LineJoin::Miter,
    }
}

#[derive(Clone, Copy, Debug, PartialEq, Eq, Structural)]
pub enum TileMode {
    Clamp,
    Repeat,
}

/// The pixel of an image of a width that is shown at a place, in the image or beyond it.
pub open spec fn shown_at(mode: TileMode, place: int, width: int) -> int {
    match mode {
        TileMode::Repeat => place % width,
        TileMode::Clamp => if place < 0 {
            0
        } else if place >= width {
            width - 1
        } else {
            place
        },
    }
}

/// How a pattern goes on beyond its image.
pub fn tile_mode(repeat: bool) -> (r: TileMode)
    ensures
        forall|place: int, width: int|
            repeat && width > 0 ==> #[trigger] shown_at(r, place + width, width) == shown_at(
                r,
                place,
                width,
            ),
        forall|place: int, width: int|
            !repeat && place >= width > 0 ==> #[trigger] shown_at(r, place, width) == width - 1,
        r == if repeat {
            TileMode::Repeat
        } else {
            TileMode::Clamp
        },
{
    proof {
        assert forall|place: int, width: int| width > 0 implies #[trigger] shown_at(
            TileMode::Repeat,
            place + width,
            width,
        ) == shown_at(TileMode::Repeat, place, width) by {
            vstd::arithmetic::div_mod::lemma_mod_add_multiples_vanish(place, width);
        }
    }
    if repeat {
        TileMode::Repeat
    } else {
        TileMode::Clamp
    }
}

/// The layer that something is drawn into.
#[derive(Clone, Copy, Debug, PartialEq, Eq, Structural)]
pub struct Layer {
    /// How it is composited, unless that is source-over.
    pub blend: Option<BlendMode>,
    /// Whether its alpha is scaled.
    pub translucent: bool,
}

/// The layer that an image is drawn into, if one is needed: none where it can be drawn
/// over what is there as it is.
pub fn layer_for(op: CompositionOrBlending, opaque: bool) -> (r: Option<Layer>)
    ensures
        ({
            let over = op == CompositionOrBlending::Composition(CompositionStyle::SourceOver);
            r == if over && opaque {
                None
            } else {
                Some(
                    Layer {
                        blend: if over {
                            None
                        } else {
                            Some(blend(op))
                        },
                        translucent: !opaque,
                    },
                )
            }
        }),
{
    if !needs_layer(op) {
        if opaque {
            None
        } else {
            Some(Layer { blend: None, translucent: true })
        }
    } else {
        Some(Layer { blend: Some(composite_blend(op)), translucent: !opaque })
    }
}

/// Whether a fill repaints everything, like a clear that opens a frame: it covers the
/// viewport with an opaque color, drawn over what is there.
pub fn is_opaque_full_fill(
    op: CompositionOrBlending,
    opaque_alpha: bool,
    opaque_color: bool,
    covers_viewport: bool,
) -> (r: bool)
    ensures
        r == (opaque_alpha && op == CompositionOrBlending::Composition(CompositionStyle::SourceOver)
            && opaque_color && covers_viewport),
{
    opaque_alpha && !needs_layer(op) && opaque_color && covers_viewport
}

/// The intervals of a dashed line, of which there is an even number: a list of odd length
/// is repeated. Without intervals the line is not dashed.
pub fn dash_intervals<T: Copy>(dash: &Vec<T>) -> (r: Option<Vec<T>>)
    requires
        2 * dash@.len() <= usize::MAX,
    ensures
        match r {
            None => dash@.len() == 0,
            Some(intervals) => {
                &&& dash@.len() > 0
                &&& intervals@ == if dash@.len() % 2 == 1 {
                    dash@ + dash@
                } else {
                    dash@
                }
                &&& intervals@.len() % 2 == 0
            },
        },
{
    let len: usize = dash.len();
    if len == 0 {
        return None;
    }
    let wanted: usize = if len % 2 == 1 {
        2 * len
    } else {
        len
    };
    let mut r: Vec<T> = Vec::new();
    let mut i: usize = 0;
    while i < wanted
        invariant
            i <= wanted,
            len == dash@.len(),
            wanted == len || wanted == 2 * len,
            r@ == (dash@ + dash@).take(i as int),
        decreases wanted - i,
    {
        let from: usize = if i < len {
            i
        } else {
            i - len
        };
        r.push(dash[from]);
        assert(r@ =~= (dash@ + dash@).take(i + 1));
        i += 1;
    }
    proof {
        if wanted == len {
            assert((dash@ + dash@).take(wanted as int) =~= dash@);
        } else {
            assert((dash@ + dash@).take(wanted as int) =~= dash@ + dash@);
        }
    }
    Some(r)
}

/// The colors and the offsets of gradient stops, as two lists.
pub fn gradient_stops<C: Copy, P: Copy>(stops: &Vec<(C, P)>) -> (r: (Vec<C>, Vec<P>))
    ensures
        r.0@ == Seq::new(stops@.len(), |i: int| stops@[i].0),
        r.1@ == Seq::new(stops@.len(), |i: int| stops@[i].1),
{
    let mut colors: Vec<C> = Vec::new();
    let mut positions: Vec<P> = Vec::new();
    let mut i: usize = 0;
    while i < stops.len()
        invariant
            i <= stops@.len(),
            colors@ == Seq::new(i as nat, |j: int| stops@[j].0),
            positions@ == Seq::new(i as nat, |j: int| stops@[j].1),
        decreases stops@.len() - i,
    {
        let (color, position): (C, P) = stops[i];
        colors.push(color);
        positions.push(position);
        assert(colors@ =~= Seq::new((i + 1) as nat, |j: int| stops@[j].0));
        assert(positions@ =~= Seq::new((i + 1) as nat, |j: int| stops@[j].1));
        i += 1;
    }
    (colors, positions)
}

/// The coordinates of the points of a run of glyphs, one after the other.
pub open spec fn coordinates<T>(points: Seq<(T, T)>) -> Seq<T> {
    Seq::new(
        2 * points.len(),
        |i: int|
            if i % 2 == 0 {
                points[i / 2].0
            } else {
                points[i / 2].1
            },
    )
}

/// The coordinates of the points of a run of glyphs, one after the other.
pub fn glyph_positions<T: Copy>(points: &Vec<(T, T)>) -> (r: Vec<T>)
    ensures
        r@ == coordinates(points@),
{
    let mut r: Vec<T> = Vec::new();
    let mut i: usize = 0;
    while i < points.len()
        invariant
            i <= points@.len(),
            r@ == coordinates(points@.take(i as int)),
        decreases points@.len() - i,
    {
        let (x, y): (T, T) = points[i];
        r.push(x);
        r.push(y);
        assert(r@ =~= coordinates(points@.take(i + 1)));
        i += 1;
    }
    assert(points@.take(i as int) =~= points@);
    r
}

} // verus!
