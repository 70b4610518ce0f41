//! A pairing payload as a QR code made of unicode half-blocks.

use crate::screen::{line_of, line_views, styled, styled_text, Color, Line, SpanView, Style};
use crate::text::{string_of, texts};
use vstd::prelude::*;

verus! {

/// Modules of white space around the code. Below 4 a phone camera frequently fails to find the
/// finder patterns, especially against a busy terminal background.
pub const QUIET_ZONE: usize = 4;

/// The most bytes that are made into a code.
pub const PAYLOAD_MAX: usize = 230;

/// How much of a code may be damaged before it cannot be read.
#[derive(Debug, Clone, Copy, PartialEq, Eq, Structural)]
pub enum Correction {
    Low,
    Medium,
    Quartile,
    High,
}

/// Why a code could not be made.
#[derive(Debug, Clone, Copy, PartialEq, Eq, Structural)]
pub enum QrError {
    DataTooLong,
    InvalidVersion,
    UnsupportedCharacterSet,
    InvalidEciDesignator,
    InvalidCharacter,
}

impl QrError {
    pub open spec fn message(self) -> Seq<char> {
        match self {
            QrError::DataTooLong => "data too long"@,
            QrError::InvalidVersion => "invalid version"@,
            QrError::UnsupportedCharacterSet => "unsupported character set"@,
            QrError::InvalidEciDesignator => "invalid ECI designator"@,
            QrError::InvalidCharacter => "invalid character"@,
        }
    }

    pub fn text(self) -> (r: &'static str)
        ensures
            r@ == self.message(),
    {
        match self {
            QrError::DataTooLong => "data too long",
            QrError::InvalidVersion => "invalid version",
            QrError::UnsupportedCharacterSet => "unsupported character set",
            QrError::InvalidEciDesignator => "invalid ECI designator",
            QrError::InvalidCharacter => "invalid character",
        }
    }
}

/// The modules of a code, row by row, without white space around them.
pub struct Symbol {
    pub width: usize,
    pub dark: Vec<bool>,
}

pub open spec fn symbol_view(r: Result<Symbol, QrError>) -> Result<(nat, Seq<bool>), QrError> {
    match r {
        Ok(s) => Ok((s.width as nat, s.dark@)),
        Err(e) => Err(e),
    }
}

/// The smallest code that holds the data: its width and its dark modules.
pub uninterp spec fn qr_symbol(data: Seq<u8>, level: Correction) -> Result<
    (nat, Seq<bool>),
    QrError,
>;

/// `qrcode::QrCode::with_error_correction_level`, with the `width` and `to_colors` of its result:
/// the code depends on the data and the level alone. It is square, and as wide as one of the forty
/// standard versions. Which modules are dark is not spelled out.
///
/// It adds up the flaws of a code in sixteen bits, which overflow on a large one. However 230 bytes
/// are split into segments, at the lowest level they take 2880 bits at most, so the code is of
/// version 12 or below: 65 modules a side. There the four kinds of flaws come to less than 62000.
#[verifier::external_body]
fn symbol(data: &[u8], level: Correction) -> (r: Result<Symbol, QrError>)
    requires
        level is Low,
        data@.len() <= PAYLOAD_MAX,
    ensures
        symbol_view(r) == qr_symbol(data@, level),
        r matches Ok(s) ==> 21 <= s.width <= 177 && s.dark@.len() == s.width * s.width,
{
    let level = match level {
        Correction::Low => qrcode::EcLevel::L,
        Correction::Medium => qrcode::EcLevel::M,
        Correction::Quartile => qrcode::EcLevel::Q,
        Correction::High => qrcode::EcLevel::H,
    };
    let code = qrcode::QrCode::with_error_correction_level(data, level).map_err(|e| match e {
        qrcode::types::QrError::DataTooLong => QrError::DataTooLong,
        qrcode::types::QrError::InvalidVersion => QrError::InvalidVersion,
        qrcode::types::QrError::UnsupportedCharacterSet => QrError::UnsupportedCharacterSet,
        qrcode::types::QrError::InvalidEciDesignator => QrError::InvalidEciDesignator,
        qrcode::types::QrError::InvalidCharacter => QrError::InvalidCharacter,
    })?;
    let dark = code.to_colors().into_iter().map(|c| c == qrcode::Color::Dark).collect();
    Ok(Symbol { width: code.width(), dark })
}

/// A QR code as a grid of booleans, quiet zone already included.
pub struct Matrix {
    pub width: usize,
    cells: Vec<bool>,
}

pub struct MatrixView {
    pub width: nat,
    /// Row by row.
    pub cells: Seq<bool>,
}

impl View for Matrix {
    type V = MatrixView;

    closed spec fn view(&self) -> MatrixView {
        MatrixView { width: self.width as nat, cells: self.cells@ }
    }
}

impl MatrixView {
    /// The grid is square.
    pub open spec fn wf(self) -> bool {
        self.cells.len() == self.width * self.width
    }

    /// Whether a module is dark. There is nothing dark outside the grid.
    pub open spec fn at(self, x: int, y: int) -> bool {
        0 <= x < self.width && 0 <= y < self.width && self.cells[y * self.width + x]
    }

    /// The row of glyphs for the module rows `2 * k` and `2 * k + 1`.
    pub open spec fn glyph_row(self, k: int) -> Seq<char> {
        Seq::new(self.width, |x: int| glyph(self.at(x, 2 * k), self.at(x, 2 * k + 1)))
    }

    /// Rows of glyphs, of two module rows each; the last may be short of one.
    pub open spec fn glyph_rows(self) -> Seq<Seq<char>> {
        Seq::new((self.width + 1) / 2, |k: int| self.glyph_row(k))
    }
}

/// Two modules, one above the other, as one character.
pub open spec fn glyph(top: bool, bottom: bool) -> char {
    match (top, bottom) {
        (true, true) => '█',
        (true, false) => '▀',
        (false, true) => '▄',
        (false, false) => ' ',
    }
}

/// Where a module stands in the list of rows.
proof fn lemma_index(x: int, y: int, width: int)
    requires
        0 <= x < width,
        0 <= y < width,
    ensures
        0 <= y * width + x < width * width,
        0 <= y * width,
{
    assert(0 <= y * width + x < width * width && 0 <= y * width) by (nonlinear_arith)
        requires
            0 <= x < width,
            0 <= y < width,
    ;
}

impl Matrix {
    /// A grid of the given cells, row by row, where they make a square of that width.
    pub fn new(width: usize, cells: Vec<bool>) -> (r: Option<Matrix>)
        ensures
            r is Some <==> cells@.len() == width * width,
            r matches Some(m) ==> m@ == (MatrixView { width: width as nat, cells: cells@ }),
    {
        let have: usize = cells.len();
        match width.checked_mul(width) {
            Some(n) => {
                if have == n {
                    Some(Matrix { width, cells })
                } else {
                    None
                }
            },
            None => None,
        }
    }

    /// How many modules a side has.
    pub fn side(&self) -> (r: usize)
        ensures
            r == self@.width,
    {
        self.width
    }

    pub fn get(&self, x: usize, y: usize) -> (r: bool)
        requires
            self@.wf(),
        ensures
            r == self@.at(x as int, y as int),
    {
        if x >= self.width || y >= self.width {
            return false;
        }
        let n: usize = self.cells.len();
        proof {
            lemma_index(x as int, y as int, self.width as int);
        }
        self.cells[y * self.width + x]
    }

    fn row(&self, k: usize) -> (r: String)
        requires
            self@.wf(),
            2 * k + 1 <= usize::MAX,
        ensures
            r@ == self@.glyph_row(k as int),
    {
        let ghost all = self@.glyph_row(k as int);
        let mut r: Vec<char> = Vec::new();
        let mut x: usize = 0;
        while x < self.width
            invariant
                self@.wf(),
                x <= self.width,
                self@.width == self.width,
                2 * k + 1 <= usize::MAX,
                all == self@.glyph_row(k as int),
                r@ == all.take(x as int),
            decreases self.width - x,
        {
            let c: char = match (self.get(x, 2 * k), self.get(x, 2 * k + 1)) {
                (true, true) => '█',
                (true, false) => '▀',
                (false, true) => '▄',
                (false, false) => ' ',
            };
            r.push(c);
            assert(all[x as int] == c);
            assert(r@ == all.take(x + 1));
            x += 1;
        }
        assert(r@ == all);
        string_of(r.as_slice())
    }

    /// Rows of half-block glyphs. Two module rows share one terminal row, because terminal cells
    /// are about twice as tall as they are wide and a code drawn one row per module comes out
    /// stretched and unscannable.
    pub fn half_block_rows(&self) -> (r: Vec<String>)
        requires
            self@.wf(),
        ensures
            texts(r@) == self@.glyph_rows(),
    {
        let ghost all = self@.glyph_rows();
        let mut rows: Vec<String> = Vec::new();
        let mut k: usize = 0;
        let cells: usize = self.cells.len();
        proof {
            let w = self.width as int;
            assert(w >= 2 ==> 2 * w <= w * w) by (nonlinear_arith);
        }
        let count: usize = self.width / 2 + self.width % 2;
        while k < count
            invariant
                self@.wf(),
                k <= count,
                self@.width == self.width,
                count == (self.width + 1) / 2,
                self.width >= 2 ==> 2 * self.width <= usize::MAX,
                all == self@.glyph_rows(),
                texts(rows@) == all.take(k as int),
            decreases count - k,
        {
            let ghost done = texts(rows@);
            let row = self.row(k);
            rows.push(row);
            assert(texts(rows@) == done.push(row@));
            assert(all.take(k + 1) == all.take(k as int).push(all[k as int]));
            k += 1;
        }
        assert(all.take(k as int) == all);
        rows
    }

    /// Styled for a terminal: dark modules as black ink on a white field, painted explicitly
    /// rather than inherited. On a dark theme the default foreground would invert the code, and a
    /// phone's scanner rejects an inverted code.
    pub fn to_lines(&self) -> (r: Vec<Line>)
        requires
            self@.wf(),
        ensures
            line_views(r@) == code_lines(self@),
    {
        let rows = self.half_block_rows();
        let ghost all = code_lines(self@);
        let mut r: Vec<Line> = Vec::new();
        let mut i: usize = 0;
        assert(texts(rows@).len() == rows@.len());
        while i < rows.len()
            invariant
                i <= rows.len(),
                texts(rows@) == self@.glyph_rows(),
                all == code_lines(self@),
                line_views(r@) == all.take(i as int),
            decreases rows.len() - i,
        {
            let ghost done = line_views(r@);
            let style = Style { fg: Some(Color::Black), bg: Some(Color::White), bold: false };
            let line = line_of(styled(rows[i].clone(), style));
            r.push(line);
            proof {
                assert(line_views(r@) == done.push(line@));
                assert(texts(rows@)[i as int] == rows@[i as int]@);
                assert(all[i as int] == line@);
                assert(all.take(i + 1) == all.take(i as int).push(all[i as int]));
            }
            i += 1;
        }
        assert(all.take(i as int) == all);
        r
    }
}

/// The lines a code is drawn as: every one black on white.
pub open spec fn code_lines(m: MatrixView) -> Seq<Seq<SpanView>> {
    m.glyph_rows().map_values(
        |row: Seq<char>|
            seq![
                styled_text(
                    row,
                    Style { fg: Some(Color::Black), bg: Some(Color::White), bold: false },
                ),
            ],
    )
}

/// A code in the middle of its quiet zone.
pub open spec fn framed(inner: nat, dark: Seq<bool>) -> MatrixView {
    let width = inner + 2 * QUIET_ZONE as nat;
    MatrixView {
        width,
        cells: Seq::new(
            width * width,
            |i: int| framed_at(inner as int, dark, i % (width as int), i / (width as int)),
        ),
    }
}

/// Whether the module at this place of the frame is a dark one of the code.
pub open spec fn framed_at(inner: int, dark: Seq<bool>, x: int, y: int) -> bool {
    let q = QUIET_ZONE as int;
    q <= x < q + inner && q <= y < q + inner && dark[(y - q) * inner + (x - q)]
}

/// Put a quiet zone around a code.
pub fn frame(s: &Symbol) -> (r: Matrix)
    requires
        s.dark@.len() == s.width * s.width,
        (s.width + 2 * QUIET_ZONE) * (s.width + 2 * QUIET_ZONE) <= usize::MAX,
    ensures
        r@.wf(),
        r@ == framed(s.width as nat, s.dark@),
{
    let inner: usize = s.width;
    let ghost all = framed(inner as nat, s.dark@);
    proof {
        let w = inner + 2 * QUIET_ZONE;
        assert(w <= w * w) by (nonlinear_arith)
            requires
                w >= 8,
        ;
    }
    let width: usize = inner + QUIET_ZONE * 2;
    let total: usize = width * width;
    let mut cells: Vec<bool> = Vec::new();
    let mut i: usize = 0;
    while i < total
        invariant
            i <= total,
            width == inner + 8,
            total == width * width,
            inner == s.width,
            s.dark@.len() == inner * inner,
            all == framed(inner as nat, s.dark@),
            all.cells.len() == total,
            cells@ == all.cells.take(i as int),
        decreases total - i,
    {
        let x: usize = i % width;
        let y: usize = i / width;
        let dark = if QUIET_ZONE <= x && x - QUIET_ZONE < inner && QUIET_ZONE <= y && y - QUIET_ZONE
            < inner {
            proof {
                lemma_index(x - QUIET_ZONE, y - QUIET_ZONE, inner as int);
            }
            let n: usize = s.dark.len();
            s.dark[(y - QUIET_ZONE) * inner + (x - QUIET_ZONE)]
        } else {
            false
        };
        cells.push(dark);
        assert(all.cells[i as int] == dark);
        assert(cells@ == all.cells.take(i + 1));
        i += 1;
    }
    assert(cells@ == all.cells);
    Matrix { width, cells }
}

/// Build the matrix for a pairing payload.
///
/// The error correction level is pinned to Low on purpose: a higher level silently promotes a
/// pairing payload to a larger code, which changes the rendered width and the terminal size the
/// pane needs. Pairing codes live for seconds on a screen a phone is pointed straight at, so the
/// redundancy buys nothing.
pub fn encode(payload: &[u8]) -> (r: Result<Matrix, QrError>)
    requires
        payload@.len() <= PAYLOAD_MAX,
    ensures
        match qr_symbol(payload@, Correction::Low) {
            Ok((inner, dark)) => r matches Ok(m) && m@ == framed(inner, dark) && m@.wf() && 29
                <= m@.width <= 185,
            Err(e) => r == Err::<Matrix, QrError>(e),
        },
{
    match symbol(payload, Correction::Low) {
        Ok(s) => {
            proof {
                let w = s.width + 8;
                assert(w * w <= 185 * 185) by (nonlinear_arith)
                    requires
                        0 <= w <= 185,
                ;
            }
            Ok(frame(&s))
        },
        Err(e) => Err(e),
    }
}

/// A module of the frame is where it was put.
proof fn lemma_framed(inner: nat, dark: Seq<bool>, x: int, y: int)
    ensures
        framed(inner, dark).at(x, y) == framed_at(inner as int, dark, x, y),
{
    let m = framed(inner, dark);
    let w = m.width as int;
    if 0 <= x < w && 0 <= y < w {
        lemma_index(x, y, w);
        let i = y * w + x;
        assert(i % w == x && i / w == y) by {
            vstd::arithmetic::div_mod::lemma_fundamental_div_mod_converse(i, w, y, x);
        }
    }
}

/// The quiet zone is blank on every side, and inside it stands the code, module for module.
pub proof fn the_quiet_zone_is_blank(inner: nat, dark: Seq<bool>, x: int, y: int)
    ensures
        x < QUIET_ZONE || y < QUIET_ZONE || x >= inner + QUIET_ZONE || y >= inner + QUIET_ZONE
            ==> !framed(inner, dark).at(x, y),
        0 <= x < inner && 0 <= y < inner ==> framed(inner, dark).at(
            x + QUIET_ZONE,
            y + QUIET_ZONE,
        ) == dark[y * inner + x],
{
    lemma_framed(inner, dark, x, y);
    lemma_framed(inner, dark, x + QUIET_ZONE, y + QUIET_ZONE);
}

/// Every module is drawn: the glyph over it tells dark from light, whichever half it is.
pub proof fn no_module_is_lost(m: MatrixView, x: int, y: int)
    requires
        0 <= x < m.width,
        0 <= y < m.width,
    ensures
        ({
            let c = m.glyph_rows()[y / 2][x];
            &&& y / 2 < m.glyph_rows().len()
            &&& y % 2 == 0 ==> (m.at(x, y) <==> c == '█' || c == '▀')
            &&& y % 2 == 1 ==> (m.at(x, y) <==> c == '█' || c == '▄')
        }),
{
    assert(2 * (y / 2) == y || 2 * (y / 2) + 1 == y);
}

} // verus!
