use vstd::prelude::*;

verus! {

/// The way in which text should wrap around the width.
#[derive(Clone, Copy, PartialEq, Eq, Structural, Debug)]
pub enum Wrap {
    NoWrap,
    /// Wrap at the first character that exceeds the width.
    Character,
    /// Wrap at the last whitespace before the width is exceeded; a single
    /// word wider than the box falls back to character wrap.
    Whitespace,
}

/// Horizontal alignment of a line within its box.
#[derive(Clone, Copy, PartialEq, Eq, Structural, Debug)]
pub enum Align {
    Start,
    Middle,
    End,
}

/// A rectangle in pixels: origin at the top left.
#[derive(Clone, Copy, PartialEq, Eq, Structural, Debug)]
pub struct Rect {
    pub left: i64,
    pub top: i64,
    pub width: i64,
    pub height: i64,
}

/// Integer font metrics: per-character advance widths (in subpixel
/// units), a default advance for characters not listed, and kerning
/// adjustments for adjacent pairs. Rasterization is the font engine's
/// affair; the layout math here only reads these numbers. A font that
/// should not count explicit line breaks toward line widths lists the
/// newline character with a zero advance.
pub struct Font {
    pub advances: Vec<(char, i64)>,
    pub default_advance: i64,
    pub kerning: Vec<(char, char, i64)>,
}

/// The largest advance or kerning magnitude a well-formed font may
/// carry, so that line widths stay well inside an i64.
pub const MAX_ADVANCE: i64 = 1_000_000;

/// The longest text the layout functions accept.
pub const MAX_TEXT_LEN: usize = 0xFFFF_FFFF;

impl Font {
    pub open spec fn wf(self) -> bool {
        &&& 0 <= self.default_advance <= MAX_ADVANCE
        &&& forall|i: int|
            0 <= i < self.advances@.len() ==> 0 <= (#[trigger] self.advances@[i]).1 <= MAX_ADVANCE
        &&& forall|i: int|
            0 <= i < self.kerning@.len() ==> -MAX_ADVANCE <= (#[trigger] self.kerning@[i]).2
                <= MAX_ADVANCE
    }

    /// The advance width of `c`: its first listed width, or the default.
    pub open spec fn advance_spec(self, c: char) -> int {
        self.advance_rest(c, 0)
    }

    pub open spec fn advance_rest(self, c: char, i: int) -> int
        decreases self.advances@.len() - i,
    {
        if i < 0 || i >= self.advances@.len() {
            self.default_advance as int
        } else if self.advances@[i].0 == c {
            self.advances@[i].1 as int
        } else {
            self.advance_rest(c, i + 1)
        }
    }

    /// The kerning between `a` and `b`: the first listed pair, or zero.
    pub open spec fn kern_rest(self, a: char, b: char, i: int) -> int
        decreases self.kerning@.len() - i,
    {
        if i < 0 || i >= self.kerning@.len() {
            0
        } else if self.kerning@[i].0 == a && self.kerning@[i].1 == b {
            self.kerning@[i].2 as int
        } else {
            self.kern_rest(a, b, i + 1)
        }
    }

    pub open spec fn kern_spec(self, a: char, b: char) -> int {
        self.kern_rest(a, b, 0)
    }

    /// A well-formed font's advances stay within the advance bound.
    pub proof fn lemma_advance_rest_bounds(self, c: char, i: int)
        requires
            self.wf(),
        ensures
            0 <= self.advance_rest(c, i) <= MAX_ADVANCE,
        decreases self.advances@.len() - i,
    {
        if 0 <= i < self.advances@.len() && self.advances@[i].0 != c {
            self.lemma_advance_rest_bounds(c, i + 1);
        }
    }

    pub proof fn lemma_advance_bounds(self, c: char)
        requires
            self.wf(),
        ensures
            0 <= self.advance_spec(c) <= MAX_ADVANCE,
    {
        self.lemma_advance_rest_bounds(c, 0);
    }

    /// A well-formed font's kerning stays within the advance bound.
    pub proof fn lemma_kern_rest_bounds(self, a: char, b: char, i: int)
        requires
            self.wf(),
        ensures
            -MAX_ADVANCE <= self.kern_rest(a, b, i) <= MAX_ADVANCE,
        decreases self.kerning@.len() - i,
    {
        if 0 <= i < self.kerning@.len() && !(self.kerning@[i].0 == a && self.kerning@[i].1 == b) {
            self.lemma_kern_rest_bounds(a, b, i + 1);
        }
    }

    pub proof fn lemma_kern_bounds(self, a: char, b: char)
        requires
            self.wf(),
        ensures
            -MAX_ADVANCE <= self.kern_spec(a, b) <= MAX_ADVANCE,
    {
        self.lemma_kern_rest_bounds(a, b, 0);
    }

    /// The advance width of one character.
    pub fn advance(&self, c: char) -> (r: i64)
        ensures
            r as int == self.advance_spec(c),
    {
        let mut i: usize = 0;
        while i < self.advances.len()
            invariant
                0 <= i <= self.advances@.len(),
                self.advance_rest(c, 0) == self.advance_rest(c, i as int),
            decreases self.advances@.len() - i,
        {
            let (ch, w) = self.advances[i];
            if ch == c {
                proof {
                    assert(self.advance_rest(c, i as int) == w as int);
                }
                return w;
            }
            i = i + 1;
        }
        self.default_advance
    }

    /// The kerning between two adjacent characters.
    pub fn kern(&self, a: char, b: char) -> (r: i64)
        ensures
            r as int == self.kern_spec(a, b),
    {
        let mut i: usize = 0;
        while i < self.kerning.len()
            invariant
                0 <= i <= self.kerning@.len(),
                self.kern_rest(a, b, 0) == self.kern_rest(a, b, i as int),
            decreases self.kerning@.len() - i,
        {
            let (ka, kb, kv) = self.kerning[i];
            if ka == a && kb == b {
                return kv;
            }
            i = i + 1;
        }
        0
    }
}

/// The width of `text[start..end]`: the sum of the advance widths.
/// (Kerning adjusts glyph placement within a line, not wrap decisions.)
pub open spec fn width_of(f: Font, text: Seq<char>, start: int, end: int) -> int
    decreases end - start,
{
    if end <= start {
        0
    } else {
        width_of(f, text, start, end - 1) + f.advance_spec(text[end - 1])
    }
}

/// Line widths are non-negative, bounded by the length times the largest
/// advance, and monotone in the end index.
pub proof fn lemma_width_bounds(f: Font, text: Seq<char>, start: int, end: int)
    requires
        f.wf(),
        start <= end,
    ensures
        0 <= width_of(f, text, start, end) <= (end - start) * MAX_ADVANCE,
    decreases end - start,
{
    if end > start {
        lemma_width_bounds(f, text, start, end - 1);
        f.lemma_advance_bounds(text[end - 1]);
        assert((end - 1 - start) * MAX_ADVANCE + MAX_ADVANCE == (end - start) * MAX_ADVANCE)
            by (nonlinear_arith);
    }
}

/// Widths grow with the end index.
pub proof fn lemma_width_monotone(f: Font, text: Seq<char>, start: int, a: int, b: int)
    requires
        f.wf(),
        start <= a <= b,
    ensures
        width_of(f, text, start, a) <= width_of(f, text, start, b),
    decreases b - a,
{
    if a < b {
        lemma_width_monotone(f, text, start, a, b - 1);
        f.lemma_advance_bounds(text[b - 1]);
    }
}

/// The greedy fit: the first index `e` past `start` at which adding one
/// more character would exceed `max`, or the end of the text. A line
/// always takes at least one character, so layout cannot loop forever on
/// a too-narrow box.
pub open spec fn fit_end(f: Font, text: Seq<char>, max: int, start: int, e: int) -> int
    decreases text.len() - e,
{
    if e >= text.len() {
        text.len() as int
    } else if width_of(f, text, start, e + 1) > max && e > start {
        e
    } else {
        fit_end(f, text, max, start, e + 1)
    }
}

/// The greedy fit lands after `e`, past `start`, and within the text.
pub proof fn lemma_fit_end_range(f: Font, text: Seq<char>, max: int, start: int, e: int)
    requires
        0 <= start,
        start <= e,
        e <= text.len(),
    ensures
        fit_end(f, text, max, start, e) <= text.len(),
        fit_end(f, text, max, start, e) >= e,
        start < text.len() ==> fit_end(f, text, max, start, e) > start,
    decreases text.len() - e,
{
    if e < text.len() && !(width_of(f, text, start, e + 1) > max && e > start) {
        lemma_fit_end_range(f, text, max, start, e + 1);
    }
}

/// When the whole tail fits, the greedy fit takes it all.
pub proof fn lemma_fit_end_all(f: Font, text: Seq<char>, max: int, start: int, e: int)
    requires
        f.wf(),
        0 <= start <= e <= text.len(),
        width_of(f, text, start, text.len() as int) <= max,
    ensures
        fit_end(f, text, max, start, e) == text.len(),
    decreases text.len() - e,
{
    if e < text.len() {
        lemma_width_monotone(f, text, start, e + 1, text.len() as int);
        lemma_fit_end_all(f, text, max, start, e + 1);
    }
}

/// The last whitespace break in `(start, e]`: the index just after the
/// last space, or -1 when the stretch holds no space. The blank (' ') is
/// the one wrap-boundary class here; explicit newlines are handled
/// separately as forced breaks, and other whitespace characters are
/// treated as ordinary glyphs.
pub open spec fn last_ws(text: Seq<char>, start: int, e: int) -> int
    decreases e - start,
{
    if e <= start {
        -1
    } else if text[e - 1] == ' ' {
        e
    } else {
        last_ws(text, start, e - 1)
    }
}

pub proof fn lemma_last_ws_range(text: Seq<char>, start: int, e: int)
    requires
        start <= e,
    ensures
        last_ws(text, start, e) == -1 || (start < last_ws(text, start, e) <= e && text[last_ws(
            text,
            start,
            e,
        ) - 1] == ' '),
    decreases e - start,
{
    if e > start && text[e - 1] != ' ' {
        lemma_last_ws_range(text, start, e - 1);
    }
}

/// The first explicit line break in `[start, e)`: the index of the
/// first newline, or -1 when the stretch holds none.
pub open spec fn first_nl(text: Seq<char>, start: int, e: int) -> int
    decreases e - start,
{
    if start >= e {
        -1
    } else if text[start] == '\n' {
        start
    } else {
        first_nl(text, start + 1, e)
    }
}

pub proof fn lemma_first_nl_range(text: Seq<char>, start: int, e: int)
    requires
        start <= e,
    ensures
        ({
            let nl = first_nl(text, start, e);
            ||| (nl == -1 && forall|k: int| start <= k < e ==> #[trigger] text[k] != '\n')
            ||| (start <= nl < e && text[nl] == '\n')
        }),
    decreases e - start,
{
    if start < e && text[start] != '\n' {
        lemma_first_nl_range(text, start + 1, e);
    }
}

/// Where the line starting at `start` would end for the given wrap mode,
/// before explicit line breaks are considered.
pub open spec fn wrap_limit(f: Font, text: Seq<char>, wrap: Wrap, max: int, start: int) -> int {
    match wrap {
        Wrap::NoWrap => text.len() as int,
        Wrap::Character => fit_end(f, text, max, start, start),
        Wrap::Whitespace => {
            let ec = fit_end(f, text, max, start, start);
            if ec == text.len() {
                ec
            } else {
                let w = last_ws(text, start, ec);
                if w > start {
                    w
                } else {
                    ec
                }
            }
        },
    }
}

/// Where the line starting at `start` ends: at the first explicit
/// newline if one comes before the wrap limit (the newline belongs to
/// the line it ends), else at the wrap limit.
pub open spec fn line_end(f: Font, text: Seq<char>, wrap: Wrap, max: int, start: int) -> int {
    let lim = wrap_limit(f, text, wrap, max, start);
    let nl = first_nl(text, start, lim);
    if nl >= 0 {
        nl + 1
    } else {
        lim
    }
}

pub proof fn lemma_line_end_range(f: Font, text: Seq<char>, wrap: Wrap, max: int, start: int)
    requires
        0 <= start < text.len(),
    ensures
        start < line_end(f, text, wrap, max, start) <= text.len(),
{
    lemma_fit_end_range(f, text, max, start, start);
    if wrap is Whitespace {
        let ec = fit_end(f, text, max, start, start);
        lemma_last_ws_range(text, start, ec);
    }
    let lim = wrap_limit(f, text, wrap, max, start);
    lemma_first_nl_range(text, start, lim);
}

/// The greedy line decomposition of `text[start..]`: each line runs from
/// its start to `line_end`, and the next line begins where it ended.
pub open spec fn wrap_from(f: Font, text: Seq<char>, wrap: Wrap, max: int, start: int) -> Seq<
    (int, int),
>
    decreases text.len() - start,
        when 0 <= start <= text.len()
        via wrap_from_dec
{
    if start >= text.len() {
        Seq::empty()
    } else {
        let end = line_end(f, text, wrap, max, start);
        seq![(start, end)] + wrap_from(f, text, wrap, max, end)
    }
}

#[via_fn]
proof fn wrap_from_dec(f: Font, text: Seq<char>, wrap: Wrap, max: int, start: int) {
    if start < text.len() {
        lemma_line_end_range(f, text, wrap, max, start);
    }
}

/// The greedy decomposition is a partition of the text: lines touch,
/// in order, from `start` to the end.
pub proof fn lemma_wrap_partition(f: Font, text: Seq<char>, wrap: Wrap, max: int, start: int)
    requires
        0 <= start <= text.len(),
    ensures
        ({
            let ls = wrap_from(f, text, wrap, max, start);
            &&& (start < text.len() <==> ls.len() > 0)
            &&& ls.len() > 0 ==> ls[0].0 == start && ls.last().1 == text.len()
            &&& forall|k: int| 0 <= k < ls.len() ==> (#[trigger] ls[k]).0 < ls[k].1 <= text.len()
            &&& forall|k: int| 0 < k < ls.len() ==> (#[trigger] ls[k]).0 == ls[k - 1].1
        }),
    decreases text.len() - start,
{
    if start < text.len() {
        let end = line_end(f, text, wrap, max, start);
        lemma_line_end_range(f, text, wrap, max, start);
        lemma_wrap_partition(f, text, wrap, max, end);
        let ls = wrap_from(f, text, wrap, max, start);
        let rest = wrap_from(f, text, wrap, max, end);
        if rest.len() == 0 {
            assert(end == text.len());
        }
    }
}

/// Text without explicit line breaks that fits in the box is laid out
/// as exactly one line covering all of it, whatever the wrap mode.
pub proof fn lemma_fits_one_line(f: Font, text: Seq<char>, wrap: Wrap, max: int)
    requires
        f.wf(),
        0 < text.len(),
        width_of(f, text, 0, text.len() as int) <= max,
        forall|k: int| 0 <= k < text.len() ==> #[trigger] text[k] != '\n',
    ensures
        wrap_from(f, text, wrap, max, 0) == seq![(0int, text.len() as int)],
{
    lemma_fit_end_all(f, text, max, 0, 0);
    assert(wrap_limit(f, text, wrap, max, 0) == text.len());
    lemma_first_nl_range(text, 0, text.len() as int);
    assert(first_nl(text, 0, text.len() as int) == -1) by {
        let nl = first_nl(text, 0, text.len() as int);
        if nl >= 0 {
            assert(text[nl] == '\n');
        }
    }
    assert(line_end(f, text, wrap, max, 0) == text.len());
    assert(wrap_from(f, text, wrap, max, text.len() as int) =~= Seq::<(int, int)>::empty());
    assert(wrap_from(f, text, wrap, max, 0) =~= seq![(0int, text.len() as int)]);
}

/// Under whitespace wrap, a line either reaches the end of the text,
/// ends right after an explicit newline, ends right after a space, or
/// holds no space at all (a single word wider than the box, broken at
/// the character that overflows).
pub proof fn lemma_whitespace_breaks(f: Font, text: Seq<char>, max: int, start: int)
    requires
        0 <= start < text.len(),
    ensures
        ({
            let end = line_end(f, text, Wrap::Whitespace, max, start);
            ||| end == text.len()
            ||| text[end - 1] == '\n'
            ||| text[end - 1] == ' '
            ||| forall|k: int| start < k <= end ==> #[trigger] text[k - 1] != ' '
        }),
{
    let ec = fit_end(f, text, max, start, start);
    lemma_fit_end_range(f, text, max, start, start);
    if ec != text.len() {
        lemma_last_ws_range(text, start, ec);
        let w = last_ws(text, start, ec);
        if w <= start {
            lemma_last_ws_none(text, start, ec);
        }
    }
    let lim = wrap_limit(f, text, Wrap::Whitespace, max, start);
    lemma_first_nl_range(text, start, lim);
}

/// A stretch without a whitespace break holds no space.
proof fn lemma_last_ws_none(text: Seq<char>, start: int, e: int)
    requires
        0 <= start <= e,
        last_ws(text, start, e) == -1,
    ensures
        forall|k: int| start < k <= e ==> #[trigger] text[k - 1] != ' ',
    decreases e - start,
{
    if e > start {
        assert(text[e - 1] != ' ') by {
            if text[e - 1] == ' ' {
                assert(last_ws(text, start, e) == e);
            }
        }
        assert(last_ws(text, start, e - 1) == -1);
        lemma_last_ws_none(text, start, e - 1);
    }
}

/// One wrapped line: the half-open character range it covers and its
/// width.
#[derive(Clone, Copy, PartialEq, Eq, Structural, Debug)]
pub struct LineInfo {
    pub start: usize,
    pub end: usize,
    pub width: i64,
}

/// The width of `text[start..end]`.
pub fn measure_width(font: &Font, text: &Vec<char>, start: usize, end: usize) -> (r: i64)
    requires
        font.wf(),
        start <= end <= text@.len(),
        text@.len() <= MAX_TEXT_LEN,
    ensures
        r as int == width_of(*font, text@, start as int, end as int),
{
    let mut acc: i64 = 0;
    let mut k: usize = start;
    while k < end
        invariant
            font.wf(),
            start <= k <= end <= text@.len(),
            text@.len() <= MAX_TEXT_LEN,
            acc as int == width_of(*font, text@, start as int, k as int),
        decreases end - k,
    {
        let a = font.advance(text[k]);
        proof {
            lemma_width_bounds(*font, text@, start as int, k as int);
            font.lemma_advance_bounds(text@[k as int]);
            assert((k - start) * MAX_ADVANCE + MAX_ADVANCE <= (MAX_TEXT_LEN + 1) * MAX_ADVANCE)
                by (nonlinear_arith)
                requires
                    0 <= k - start <= MAX_TEXT_LEN,
            ;
        }
        acc = acc + a;
        k = k + 1;
    }
    acc
}

/// The greedy fit, executable: mirrors `fit_end`.
fn fit_end_x(font: &Font, text: &Vec<char>, max: i64, start: usize, e: usize) -> (r: usize)
    requires
        font.wf(),
        start <= e <= text@.len(),
        text@.len() <= MAX_TEXT_LEN,
    ensures
        r as int == fit_end(*font, text@, max as int, start as int, e as int),
        start <= r <= text@.len(),
    decreases text@.len() - e,
{
    if e >= text.len() {
        text.len()
    } else {
        let w = measure_width(font, text, start, e + 1);
        if w > max && e > start {
            e
        } else {
            fit_end_x(font, text, max, start, e + 1)
        }
    }
}

/// The last whitespace break in `(start, e]`, executable: mirrors
/// `last_ws`, with `None` for -1.
fn last_ws_x(text: &Vec<char>, start: usize, e: usize) -> (r: Option<usize>)
    requires
        start <= e <= text@.len(),
    ensures
        match r {
            Some(w) => last_ws(text@, start as int, e as int) == w,
            None => last_ws(text@, start as int, e as int) == -1,
        },
    decreases e - start,
{
    if e <= start {
        None
    } else if text[e - 1] == ' ' {
        Some(e)
    } else {
        last_ws_x(text, start, e - 1)
    }
}

/// The first explicit line break in `[start, e)`, executable: mirrors
/// `first_nl`, with `None` for -1.
fn first_nl_x(text: &Vec<char>, start: usize, e: usize) -> (r: Option<usize>)
    requires
        start <= e <= text@.len(),
    ensures
        match r {
            Some(nl) => first_nl(text@, start as int, e as int) == nl,
            None => first_nl(text@, start as int, e as int) == -1,
        },
    decreases e - start,
{
    if start >= e {
        None
    } else if text[start] == '\n' {
        Some(start)
    } else {
        first_nl_x(text, start + 1, e)
    }
}

/// Where the line starting at `start` ends, executable: mirrors
/// `line_end`.
fn line_end_x(font: &Font, text: &Vec<char>, wrap: Wrap, max: i64, start: usize) -> (r: usize)
    requires
        font.wf(),
        start < text@.len(),
        text@.len() <= MAX_TEXT_LEN,
    ensures
        r as int == line_end(*font, text@, wrap, max as int, start as int),
        start < r <= text@.len(),
{
    proof {
        lemma_line_end_range(*font, text@, wrap, max as int, start as int);
    }
    let lim = match wrap {
        Wrap::NoWrap => text.len(),
        Wrap::Character => fit_end_x(font, text, max, start, start),
        Wrap::Whitespace => {
            let ec = fit_end_x(font, text, max, start, start);
            if ec == text.len() {
                ec
            } else {
                match last_ws_x(text, start, ec) {
                    Some(w) => if w > start {
                        w
                    } else {
                        ec
                    },
                    None => ec,
                }
            }
        },
    };
    proof {
        assert(lim as int == wrap_limit(*font, text@, wrap, max as int, start as int));
        lemma_fit_end_range(*font, text@, max as int, start as int, start as int);
        if wrap is Whitespace {
            let ec = fit_end(*font, text@, max as int, start as int, start as int);
            lemma_last_ws_range(text@, start as int, ec);
        }
        assert(start <= lim <= text@.len());
    }
    match first_nl_x(text, start, lim) {
        Some(nl) => nl + 1,
        None => lim,
    }
}

/// Computes the greedy line decomposition of the text: one record per
/// line, exactly as `wrap_from` describes, each with its width.
pub fn line_infos(text: &Vec<char>, font: &Font, wrap: Wrap, max_width: i64) -> (r: Vec<LineInfo>)
    requires
        font.wf(),
        text@.len() <= MAX_TEXT_LEN,
    ensures
        ({
            let ls = wrap_from(*font, text@, wrap, max_width as int, 0);
            &&& r@.len() == ls.len()
            &&& forall|k: int|
                0 <= k < ls.len() ==> {
                    let li = #[trigger] r@[k];
                    &&& li.start as int == ls[k].0
                    &&& li.end as int == ls[k].1
                    &&& li.width as int == width_of(*font, text@, ls[k].0, ls[k].1)
                }
        }),
{
    let ghost full = wrap_from(*font, text@, wrap, max_width as int, 0);
    let mut r: Vec<LineInfo> = Vec::new();
    let mut start: usize = 0;
    while start < text.len()
        invariant
            font.wf(),
            text@.len() <= MAX_TEXT_LEN,
            0 <= start <= text@.len(),
            full == wrap_from(*font, text@, wrap, max_width as int, 0),
            r@.len() <= full.len(),
            full.skip(r@.len() as int) == wrap_from(
                *font,
                text@,
                wrap,
                max_width as int,
                start as int,
            ),
            forall|k: int|
                0 <= k < r@.len() ==> {
                    let li = #[trigger] r@[k];
                    &&& li.start as int == full[k].0
                    &&& li.end as int == full[k].1
                    &&& li.width as int == width_of(*font, text@, full[k].0, full[k].1)
                },
        decreases text@.len() - start,
    {
        let end = line_end_x(font, text, wrap, max_width, start);
        let w = measure_width(font, text, start, end);
        let ghost before = r@.len() as int;
        r.push(LineInfo { start, end, width: w });
        proof {
            let tail = wrap_from(*font, text@, wrap, max_width as int, start as int);
            assert(tail == seq![(start as int, end as int)] + wrap_from(
                *font,
                text@,
                wrap,
                max_width as int,
                end as int,
            ));
            assert(full.skip(before).len() == full.len() - before);
            assert(full.skip(before).len() >= 1);
            assert(full.skip(before)[0] == (start as int, end as int));
            assert(full.len() > before);
            assert(full[before] == (start as int, end as int));
            assert(full.skip(before + 1) =~= full.skip(before).skip(1));
            assert(full.skip(before).skip(1) =~= wrap_from(
                *font,
                text@,
                wrap,
                max_width as int,
                end as int,
            ));
        }
        start = end;
    }
    proof {
        assert(wrap_from(*font, text@, wrap, max_width as int, start as int) =~= Seq::<(
            int,
            int,
        )>::empty());
        assert(full.skip(r@.len() as int).len() == 0);
        assert(r@.len() == full.len());
    }
    r
}

/// A line decomposition never holds more lines than characters.
pub proof fn lemma_wrap_count(f: Font, text: Seq<char>, wrap: Wrap, max: int, start: int)
    requires
        0 <= start <= text.len(),
    ensures
        wrap_from(f, text, wrap, max, start).len() <= text.len() - start,
    decreases text.len() - start,
{
    if start < text.len() {
        let end = line_end(f, text, wrap, max, start);
        lemma_line_end_range(f, text, wrap, max, start);
        lemma_wrap_count(f, text, wrap, max, end);
    }
}

/// The widest line of a decomposition.
pub open spec fn max_line_width(f: Font, text: Seq<char>, ls: Seq<(int, int)>) -> int
    decreases ls.len(),
{
    if ls.len() == 0 {
        0
    } else {
        let w = width_of(f, text, ls.last().0, ls.last().1);
        let rest = max_line_width(f, text, ls.drop_last());
        if w > rest {
            w
        } else {
            rest
        }
    }
}

/// The total bounding size of the text: the widest line, and the line
/// count times the line height. Wrapping is measured against an
/// unbounded width, as befits a size query.
pub fn get_text_size(text: &Vec<char>, font: &Font, line_height: i64, wrap: Wrap) -> (r: (i64, i64))
    requires
        font.wf(),
        text@.len() <= MAX_TEXT_LEN,
        0 <= line_height <= MAX_ADVANCE,
    ensures
        ({
            let ls = wrap_from(*font, text@, wrap, i64::MAX as int, 0);
            &&& r.0 as int == max_line_width(*font, text@, ls)
            &&& r.1 as int == ls.len() * line_height
        }),
{
    let infos = line_infos(text, font, wrap, i64::MAX);
    let ghost ls = wrap_from(*font, text@, wrap, i64::MAX as int, 0);
    let mut max_w: i64 = 0;
    let mut k: usize = 0;
    while k < infos.len()
        invariant
            font.wf(),
            infos@.len() == ls.len(),
            forall|j: int|
                0 <= j < ls.len() ==> {
                    let li = #[trigger] infos@[j];
                    &&& li.start as int == ls[j].0
                    &&& li.end as int == ls[j].1
                    &&& li.width as int == width_of(*font, text@, ls[j].0, ls[j].1)
                },
            0 <= k <= ls.len(),
            max_w as int == max_line_width(*font, text@, ls.take(k as int)),
        decreases infos@.len() - k,
    {
        let w = infos[k].width;
        proof {
            assert(ls.take(k + 1int).drop_last() =~= ls.take(k as int));
            assert(ls.take(k + 1int).last() == ls[k as int]);
        }
        if w > max_w {
            max_w = w;
        }
        k = k + 1;
    }
    proof {
        assert(ls.take(ls.len() as int) =~= ls);
        lemma_wrap_count(*font, text@, wrap, i64::MAX as int, 0);
        assert(ls.len() * line_height <= MAX_TEXT_LEN * MAX_ADVANCE) by (nonlinear_arith)
            requires
                0 <= ls.len() <= MAX_TEXT_LEN,
                0 <= line_height <= MAX_ADVANCE,
        ;
    }
    let count = infos.len();
    (max_w, (count as i64) * line_height)
}

/// The height the text takes when wrapped into the given width.
pub fn get_text_height(
    text: &Vec<char>,
    font: &Font,
    line_height: i64,
    wrap: Wrap,
    width: i64,
) -> (r: i64)
    requires
        font.wf(),
        text@.len() <= MAX_TEXT_LEN,
        0 <= line_height <= MAX_ADVANCE,
    ensures
        r as int == wrap_from(*font, text@, wrap, width as int, 0).len() * line_height,
{
    let infos = line_infos(text, font, wrap, width);
    proof {
        lemma_wrap_count(*font, text@, wrap, width as int, 0);
        assert(infos@.len() * line_height <= MAX_TEXT_LEN * MAX_ADVANCE) by (nonlinear_arith)
            requires
                0 <= infos@.len() <= MAX_TEXT_LEN,
                0 <= line_height <= MAX_ADVANCE,
        ;
    }
    (infos.len() as i64) * line_height
}

/// The bound on rectangle coordinates the line placement functions
/// accept.
pub const MAX_COORD: i64 = 0x4000_0000;

/// Where a line of width `w` starts horizontally inside `rect`.
pub open spec fn align_x(rect: Rect, align: Align, w: int) -> int {
    match align {
        Align::Start => rect.left as int,
        Align::Middle => rect.left + (rect.width - w) / 2,
        Align::End => rect.left + rect.width - w,
    }
}

/// One rectangle per wrapped line, stacked line by line from the top of
/// `rect` and aligned within it as requested.
#[verifier::rlimit(80)]
pub fn get_line_rects(
    text: &Vec<char>,
    rect: Rect,
    font: &Font,
    wrap: Wrap,
    align: Align,
    line_height: i64,
) -> (r: Vec<Rect>)
    requires
        font.wf(),
        text@.len() <= MAX_TEXT_LEN,
        0 <= line_height <= MAX_ADVANCE,
        -MAX_COORD <= rect.left <= MAX_COORD,
        -MAX_COORD <= rect.top <= MAX_COORD,
        0 <= rect.width <= MAX_COORD,
    ensures
        ({
            let ls = wrap_from(*font, text@, wrap, rect.width as int, 0);
            &&& r@.len() == ls.len()
            &&& forall|k: int|
                0 <= k < ls.len() ==> #[trigger] r@[k] == (Rect {
                    left: align_x(rect, align, width_of(*font, text@, ls[k].0, ls[k].1)) as i64,
                    top: (rect.top + k * line_height) as i64,
                    width: width_of(*font, text@, ls[k].0, ls[k].1) as i64,
                    height: line_height,
                })
        }),
{
    let infos = line_infos(text, font, wrap, rect.width);
    let ghost ls = wrap_from(*font, text@, wrap, rect.width as int, 0);
    proof {
        lemma_wrap_count(*font, text@, wrap, rect.width as int, 0);
        lemma_wrap_partition(*font, text@, wrap, rect.width as int, 0);
    }
    let mut r: Vec<Rect> = Vec::new();
    let mut k: usize = 0;
    while k < infos.len()
        invariant
            font.wf(),
            text@.len() <= MAX_TEXT_LEN,
            0 <= line_height <= MAX_ADVANCE,
            -MAX_COORD <= rect.left <= MAX_COORD,
            -MAX_COORD <= rect.top <= MAX_COORD,
            0 <= rect.width <= MAX_COORD,
            infos@.len() == ls.len(),
            ls.len() <= MAX_TEXT_LEN,
            forall|j: int|
                0 <= j < ls.len() ==> (#[trigger] ls[j]).0 < ls[j].1 <= text@.len(),
            forall|j: int|
                0 <= j < ls.len() ==> {
                    let li = #[trigger] infos@[j];
                    &&& li.start as int == ls[j].0
                    &&& li.end as int == ls[j].1
                    &&& li.width as int == width_of(*font, text@, ls[j].0, ls[j].1)
                },
            0 <= k <= ls.len(),
            r@.len() == k,
            forall|j: int|
                0 <= j < k ==> #[trigger] r@[j] == (Rect {
                    left: align_x(rect, align, width_of(*font, text@, ls[j].0, ls[j].1)) as i64,
                    top: (rect.top + j * line_height) as i64,
                    width: width_of(*font, text@, ls[j].0, ls[j].1) as i64,
                    height: line_height,
                }),
        decreases infos@.len() - k,
    {
        let li = infos[k];
        proof {
            lemma_width_bounds(*font, text@, ls[k as int].0, ls[k as int].1);
            assert((ls[k as int].1 - ls[k as int].0) * MAX_ADVANCE <= MAX_TEXT_LEN * MAX_ADVANCE)
                by (nonlinear_arith)
                requires
                    0 <= ls[k as int].1 - ls[k as int].0 <= MAX_TEXT_LEN,
            ;
            assert(k * line_height <= MAX_TEXT_LEN * MAX_ADVANCE) by (nonlinear_arith)
                requires
                    0 <= k <= MAX_TEXT_LEN,
                    0 <= line_height <= MAX_ADVANCE,
            ;
            assert(k * line_height >= 0) by (nonlinear_arith)
                requires
                    k >= 0 && line_height >= 0,
            ;
        }
        let x = match align {
            Align::Start => rect.left,
            Align::Middle => {
                let d = rect.width - li.width;
                let half = if d >= 0 {
                    d / 2
                } else {
                    -((-d + 1) / 2)
                };
                proof {
                    assert(half as int == (rect.width - li.width as int) / 2) by (nonlinear_arith)
                        requires
                            d == rect.width - li.width as int,
                            half == (if d >= 0 {
                                d / 2
                            } else {
                                -((-d + 1) / 2)
                            }),
                    ;
                }
                rect.left + half
            },
            Align::End => rect.left + rect.width - li.width,
        };
        let y = rect.top + (k as i64) * line_height;
        r.push(Rect { left: x, top: y, width: li.width, height: line_height });
        k = k + 1;
    }
    r
}

/// Aligned line origins stay within a fixed band around the box.
pub proof fn lemma_align_bounds(rect: Rect, align: Align, w: int)
    requires
        -MAX_COORD <= rect.left <= MAX_COORD,
        0 <= rect.width <= MAX_COORD,
        0 <= w <= MAX_TEXT_LEN * MAX_ADVANCE,
    ensures
        -(MAX_COORD + MAX_TEXT_LEN * MAX_ADVANCE) <= align_x(rect, align, w) <= 2 * MAX_COORD
            + MAX_TEXT_LEN * MAX_ADVANCE,
{
    match align {
        Align::Start => {},
        Align::Middle => {
            let d = rect.width - w;
            assert(d == 2 * (d / 2) + (d % 2));
            assert(0 <= d % 2 < 2);
        },
        Align::End => {},
    }
}

/// One placed glyph: the character and the pixel position of its origin.
#[derive(Clone, Copy, PartialEq, Eq, Structural, Debug)]
pub struct PositionedGlyph {
    pub ch: char,
    pub x: i64,
    pub y: i64,
}

/// The horizontal offset of the glyph at text index `j` within the line
/// `[s, ..)`: advances accumulate from the line start, with the kerning
/// of each adjacent pair added between them. The first glyph of a line
/// has no preceding kerning, and the accumulation resets per line.
pub open spec fn glyph_offset(f: Font, text: Seq<char>, s: int, j: int) -> int
    decreases j - s,
{
    if j <= s {
        0
    } else {
        glyph_offset(f, text, s, j - 1) + f.advance_spec(text[j - 1]) + f.kern_spec(
            text[j - 1],
            text[j],
        )
    }
}

/// Glyph offsets stay within twice the advance bound per character.
pub proof fn lemma_glyph_offset_bounds(f: Font, text: Seq<char>, s: int, j: int)
    requires
        f.wf(),
        s <= j,
    ensures
        -(j - s) * (2 * MAX_ADVANCE) <= glyph_offset(f, text, s, j) <= (j - s) * (2 * MAX_ADVANCE),
    decreases j - s,
{
    if j > s {
        lemma_glyph_offset_bounds(f, text, s, j - 1);
        f.lemma_advance_bounds(text[j - 1]);
        f.lemma_kern_bounds(text[j - 1], text[j]);
        assert((j - 1 - s) * (2 * MAX_ADVANCE) + 2 * MAX_ADVANCE == (j - s) * (2 * MAX_ADVANCE))
            by (nonlinear_arith);
    }
}

/// The glyph of the character at text index `j`, on the line that
/// starts at `s` and is placed from `(x0, y)`.
pub open spec fn glyph_at(
    f: Font,
    text: Seq<char>,
    s: int,
    x0: int,
    y: int,
    j: int,
) -> PositionedGlyph {
    PositionedGlyph {
        ch: text[j],
        x: clamp_i64_at(x0 + glyph_offset(f, text, s, j)) as i64,
        y: y as i64,
    }
}

/// The glyphs of one line `[j, e)` of the line starting at `s`, placed
/// from `(x0, y)`.
pub open spec fn glyph_line(
    f: Font,
    text: Seq<char>,
    s: int,
    j: int,
    e: int,
    x0: int,
    y: int,
) -> Seq<PositionedGlyph> {
    Seq::new(
        (if e >= j {
            e - j
        } else {
            0
        }) as nat,
        (|i: int| glyph_at(f, text, s, x0, y, j + i)),
    )
}

/// A line's glyphs, one after another: taking one more character
/// appends its glyph.
#[verifier::rlimit(50)]
proof fn lemma_glyph_line_snoc(f: Font, text: Seq<char>, s: int, a: int, b: int, x0: int, y: int)
    requires
        s <= a <= b,
    ensures
        glyph_line(f, text, s, a, b + 1, x0, y) == glyph_line(f, text, s, a, b, x0, y) + seq![
            glyph_at(f, text, s, x0, y, b),
        ],
{
    assert(glyph_line(f, text, s, a, b + 1, x0, y) =~= glyph_line(f, text, s, a, b, x0, y) + seq![
        glyph_at(f, text, s, x0, y, b),
    ]);
}

/// Places the glyphs of one line: characters `[s, e)` advanced and
/// kerned from `x0`, all at baseline `y`, appended to `out`.
#[verifier::rlimit(100)]
#[verifier::spinoff_prover]
fn place_line(
    font: &Font,
    text: &Vec<char>,
    s: usize,
    e: usize,
    x0: i64,
    y: i64,
    out: &mut Vec<PositionedGlyph>,
)
    requires
        font.wf(),
        s < e <= text@.len(),
        text@.len() <= MAX_TEXT_LEN,
    ensures
        final(out)@ == old(out)@ + glyph_line(
            *font,
            text@,
            s as int,
            s as int,
            e as int,
            x0 as int,
            y as int,
        ),
{
    let mut j: usize = s;
    let mut off: i64 = 0;
    proof {
        assert(out@ =~= old(out)@ + glyph_line(
            *font,
            text@,
            s as int,
            s as int,
            s as int,
            x0 as int,
            y as int,
        ));
    }
    while j < e
        invariant
            font.wf(),
            s <= j <= e <= text@.len(),
            text@.len() <= MAX_TEXT_LEN,
            j < e ==> off as int == glyph_offset(*font, text@, s as int, j as int),
            out@ == old(out)@ + glyph_line(
                *font,
                text@,
                s as int,
                s as int,
                j as int,
                x0 as int,
                y as int,
            ),
        decreases e - j,
    {
        proof {
            lemma_glyph_offset_bounds(*font, text@, s as int, j as int);
            assert((j - s) * (2 * MAX_ADVANCE) <= MAX_TEXT_LEN * (2 * MAX_ADVANCE))
                by (nonlinear_arith)
                requires
                    0 <= j - s <= MAX_TEXT_LEN,
            ;
        }
        let x = add_i64_sat(x0, off);
        let c = text[j];
        out.push(PositionedGlyph { ch: c, x, y });
        proof {
            lemma_glyph_line_snoc(*font, text@, s as int, s as int, j as int, x0 as int, y as int);
            assert(out@ =~= old(out)@ + glyph_line(
                *font,
                text@,
                s as int,
                s as int,
                j + 1int,
                x0 as int,
                y as int,
            ));
            lemma_glyph_offset_bounds(*font, text@, s as int, j + 1int);
            assert((j + 1 - s) * (2 * MAX_ADVANCE) <= (MAX_TEXT_LEN + 1) * (2 * MAX_ADVANCE))
                by (nonlinear_arith)
                requires
                    0 <= j + 1 - s <= MAX_TEXT_LEN + 1,
            ;
        }
        if j + 1 < e {
            let adv = font.advance(c);
            let kern = font.kern(c, text[j + 1]);
            proof {
                font.lemma_advance_bounds(text@[j as int]);
                font.lemma_kern_bounds(text@[j as int], text@[j + 1]);
            }
            off = off + adv + kern;
        }
        j = j + 1;
    }
}

/// The glyphs of lines `k..` of the decomposition `ls`, placed within
/// `rect`: each line starts at its aligned left edge, with the baseline
/// one font size below the line's top.
pub open spec fn glyphs_from(
    f: Font,
    text: Seq<char>,
    ls: Seq<(int, int)>,
    rect: Rect,
    align: Align,
    line_height: int,
    font_size: int,
    k: int,
) -> Seq<PositionedGlyph>
    decreases ls.len() - k,
{
    if k < 0 || k >= ls.len() {
        Seq::empty()
    } else {
        glyph_line(
            f,
            text,
            ls[k].0,
            ls[k].0,
            ls[k].1,
            align_x(rect, align, width_of(f, text, ls[k].0, ls[k].1)) as i64 as int,
            rect.top + k * line_height + font_size,
        ) + glyphs_from(f, text, ls, rect, align, line_height, font_size, k + 1)
    }
}

/// Per-character glyph placements: for each wrapped line, each character
/// in turn, advanced and kerned from the line's aligned left edge, the
/// accumulation reset per line, the first glyph of each line without
/// preceding kerning.
#[verifier::spinoff_prover]
pub fn get_positioned_glyphs(
    text: &Vec<char>,
    rect: Rect,
    font: &Font,
    font_size: i64,
    wrap: Wrap,
    align: Align,
    line_height: i64,
) -> (r: Vec<PositionedGlyph>)
    requires
        font.wf(),
        text@.len() <= MAX_TEXT_LEN,
        0 <= line_height <= MAX_ADVANCE,
        0 <= font_size <= MAX_ADVANCE,
        -MAX_COORD <= rect.left <= MAX_COORD,
        -MAX_COORD <= rect.top <= MAX_COORD,
        0 <= rect.width <= MAX_COORD,
    ensures
        r@ == glyphs_from(
            *font,
            text@,
            wrap_from(*font, text@, wrap, rect.width as int, 0),
            rect,
            align,
            line_height as int,
            font_size as int,
            0,
        ),
{
    let rects = get_line_rects(text, rect, font, wrap, align, line_height);
    let infos = line_infos(text, font, wrap, rect.width);
    let ghost ls = wrap_from(*font, text@, wrap, rect.width as int, 0);
    proof {
        lemma_wrap_partition(*font, text@, wrap, rect.width as int, 0);
        lemma_wrap_count(*font, text@, wrap, rect.width as int, 0);
    }
    let mut r: Vec<PositionedGlyph> = Vec::new();
    let mut k: usize = 0;
    while k < infos.len()
        invariant
            font.wf(),
            text@.len() <= MAX_TEXT_LEN,
            0 <= line_height <= MAX_ADVANCE,
            0 <= font_size <= MAX_ADVANCE,
            -MAX_COORD <= rect.top <= MAX_COORD,
            ls == wrap_from(*font, text@, wrap, rect.width as int, 0),
            infos@.len() == ls.len(),
            rects@.len() == ls.len(),
            ls.len() <= MAX_TEXT_LEN,
            forall|j: int| 0 <= j < ls.len() ==> (#[trigger] ls[j]).0 < ls[j].1 <= text@.len(),
            forall|j: int|
                0 <= j < ls.len() ==> {
                    let li = #[trigger] infos@[j];
                    &&& li.start as int == ls[j].0
                    &&& li.end as int == ls[j].1
                },
            forall|j: int|
                0 <= j < ls.len() ==> {
                    let lr = #[trigger] rects@[j];
                    &&& lr.left as int == align_x(
                        rect,
                        align,
                        width_of(*font, text@, ls[j].0, ls[j].1),
                    ) as i64 as int
                    &&& lr.top as int == (rect.top + j * line_height) as i64 as int
                },
            0 <= k <= ls.len(),
            r@ + glyphs_from(
                *font,
                text@,
                ls,
                rect,
                align,
                line_height as int,
                font_size as int,
                k as int,
            ) == glyphs_from(
                *font,
                text@,
                ls,
                rect,
                align,
                line_height as int,
                font_size as int,
                0,
            ),
        decreases infos@.len() - k,
    {
        let li = infos[k];
        let line_rect = rects[k];
        proof {
            assert(0 <= k * line_height <= MAX_TEXT_LEN * MAX_ADVANCE) by (nonlinear_arith)
                requires
                    0 <= k <= MAX_TEXT_LEN,
                    0 <= line_height <= MAX_ADVANCE,
            ;
            assert(line_rect.top as int == rect.top + k * line_height);
        }
        let y = line_rect.top + font_size;
        let ghost rpre = r@;
        place_line(font, text, li.start, li.end, line_rect.left, y, &mut r);
        proof {
            let g = glyphs_from(
                *font,
                text@,
                ls,
                rect,
                align,
                line_height as int,
                font_size as int,
                k as int,
            );
            assert(g =~= glyph_line(
                *font,
                text@,
                ls[k as int].0,
                ls[k as int].0,
                ls[k as int].1,
                line_rect.left as int,
                y as int,
            ) + glyphs_from(
                *font,
                text@,
                ls,
                rect,
                align,
                line_height as int,
                font_size as int,
                k + 1int,
            ));
            assert(r@ + glyphs_from(
                *font,
                text@,
                ls,
                rect,
                align,
                line_height as int,
                font_size as int,
                k + 1int,
            ) =~= glyphs_from(
                *font,
                text@,
                ls,
                rect,
                align,
                line_height as int,
                font_size as int,
                0,
            ));
        }
        k = k + 1;
    }
    proof {
        assert(r@ =~= glyphs_from(
            *font,
            text@,
            ls,
            rect,
            align,
            line_height as int,
            font_size as int,
            0,
        ));
    }
    r
}

/// `a + b`, clamped into the i64 range.
fn add_i64_sat(a: i64, b: i64) -> (r: i64)
    ensures
        r as int == clamp_i64_at(a + b),
{
    let d = (a as i128) + (b as i128);
    if d > i64::MAX as i128 {
        i64::MAX
    } else if d < i64::MIN as i128 {
        i64::MIN
    } else {
        d as i64
    }
}

/// `v` clamped into the i64 range.
pub open spec fn clamp_i64_at(v: int) -> int {
    if v > i64::MAX {
        i64::MAX as int
    } else if v < i64::MIN {
        i64::MIN as int
    } else {
        v
    }
}

/// An iterator-like reader yielding each line of `text` as its own
/// vector of characters, where the line ranges are supplied by the
/// caller.
pub struct Lines<'a> {
    pub text: &'a Vec<char>,
    pub ranges: Vec<(usize, usize)>,
    pub at: usize,
}

/// Produces a reader yielding each line within `text`, where the
/// half-open index ranges of the lines are provided by the caller.
pub fn lines<'a>(text: &'a Vec<char>, ranges: Vec<(usize, usize)>) -> (r: Lines<'a>)
    requires
        forall|i: int|
            0 <= i < ranges@.len() ==> (#[trigger] ranges@[i]).0 <= ranges@[i].1 && ranges@[i].1
                <= text@.len(),
    ensures
        r.wf(),
        r.text@ == text@,
        r.ranges@ == ranges@,
        r.at == 0,
{
    Lines { text, ranges, at: 0 }
}

impl<'a> Lines<'a> {
    pub open spec fn wf(self) -> bool {
        &&& self.at <= self.ranges@.len()
        &&& forall|i: int|
            0 <= i < self.ranges@.len() ==> (#[trigger] self.ranges@[i]).0 <= self.ranges@[i].1
                && self.ranges@[i].1 <= self.text@.len()
    }

    /// The next line, as the characters of its range, or `None` when the
    /// ranges are exhausted.
    pub fn next(&mut self) -> (r: Option<Vec<char>>)
        requires
            old(self).wf(),
        ensures
            final(self).wf(),
            final(self).text@ == old(self).text@,
            final(self).ranges@ == old(self).ranges@,
            match r {
                Some(line) => {
                    &&& old(self).at < old(self).ranges@.len()
                    &&& final(self).at == old(self).at + 1
                    &&& line@ == old(self).text@.subrange(
                        old(self).ranges@[old(self).at as int].0 as int,
                        old(self).ranges@[old(self).at as int].1 as int,
                    )
                },
                None => old(self).at == old(self).ranges@.len() && final(self).at == old(self).at,
            },
    {
        if self.at >= self.ranges.len() {
            return None;
        }
        let (start, end) = self.ranges[self.at];
        let mut line: Vec<char> = Vec::new();
        let mut j: usize = start;
        while j < end
            invariant
                start <= j <= end <= self.text@.len(),
                line@ == self.text@.subrange(start as int, j as int),
            decreases end - j,
        {
            line.push(self.text[j]);
            proof {
                assert(line@ =~= self.text@.subrange(start as int, j + 1int));
            }
            j = j + 1;
        }
        self.at = self.at + 1;
        proof {
            assert(line@ =~= self.text@.subrange(start as int, end as int));
        }
        Some(line)
    }
}

} // verus!
