use vstd::prelude::*;
use vstd::string::*;
use crate::escape::{escape_ffmpeg_drawtext_text, escaped, push_char};

verus! {

pub open spec fn digit_char(d: nat) -> char {
    "0123456789"@[d as int]
}

/// Decimal digits of a number, without leading zeros.
pub open spec fn decimal(n: nat) -> Seq<char>
    decreases n,
{
    if n < 10 {
        seq![digit_char(n)]
    } else {
        decimal(n / 10) + seq![digit_char(n % 10)]
    }
}

/// A file size in hundredths of a megabyte (10^6 bytes), rounded half up.
pub open spec fn size_hundredths(size_bytes: nat) -> nat {
    (size_bytes + 5000) / 10000
}

/// A size in megabytes with two decimals.
pub open spec fn size_mb_text(size_bytes: nat) -> Seq<char> {
    let h = size_hundredths(size_bytes);
    decimal(h / 100) + "."@ + seq![digit_char((h % 100) / 10), digit_char(h % 10)]
}

/// The caption burnt onto the mosaic, before escaping.
pub open spec fn caption_spec(file_name: Seq<char>, size_bytes: nat, resolution: Seq<char>) -> Seq<
    char,
> {
    "File:"@ + file_name + " Size:"@ + size_mb_text(size_bytes) + " MB Resolution:("@ + resolution
        + ")"@
}

/// The drawtext filter that burns `caption` in white on a half-transparent black box.
pub open spec fn overlay_filter_spec(font_path: Seq<char>, caption: Seq<char>) -> Seq<char> {
    "drawtext=fontfile='"@ + escaped(font_path) + "':text='"@ + escaped(caption)
        + "':x=10:y=10:fontsize=96:fontcolor=white:box=1:boxcolor=black@0.5"@
}

fn push_digit(out: &mut String, d: u64)
    requires
        d < 10,
    ensures
        final(out)@ == old(out)@.push(digit_char(d as nat)),
{
    proof {
        reveal_strlit("0123456789");
    }
    let c = "0123456789".get_char(d as usize);
    push_char(out, c);
}

/// Appends the decimal digits of `n`.
pub fn push_decimal(out: &mut String, n: u64)
    ensures
        final(out)@ == old(out)@ + decimal(n as nat),
    decreases n,
{
    if n < 10 {
        push_digit(out, n);
        assert(final(out)@ =~= old(out)@ + decimal(n as nat));
    } else {
        push_decimal(out, n / 10);
        push_digit(out, n % 10);
        assert(final(out)@ =~= old(out)@ + decimal(n as nat));
    }
}

/// The caption `File:<name> Size:<size> MB Resolution:(<WxH>)`, the size in megabytes
/// with two decimals.
pub fn caption_text(file_name: &str, size_bytes: u64, resolution: &str) -> (r: String)
    ensures
        r@ == caption_spec(file_name@, size_bytes as nat, resolution@),
{
    let h: u64 = ((size_bytes as u128 + 5000) / 10000) as u64;
    let mut out = String::from_str("File:");
    out.append(file_name);
    out.append(" Size:");
    push_decimal(&mut out, h / 100);
    out.append(".");
    push_digit(&mut out, (h % 100) / 10);
    push_digit(&mut out, h % 10);
    out.append(" MB Resolution:(");
    out.append(resolution);
    out.append(")");
    assert(out@ =~= caption_spec(file_name@, size_bytes as nat, resolution@));
    out
}

/// The drawtext filter for a font file and a caption, both escaped.
pub fn overlay_filter(font_path: &str, caption: &str) -> (r: String)
    ensures
        r@ == overlay_filter_spec(font_path@, caption@),
{
    let font = escape_ffmpeg_drawtext_text(font_path);
    let text = escape_ffmpeg_drawtext_text(caption);
    let mut out = String::from_str("drawtext=fontfile='");
    out.append(font.as_str());
    out.append("':text='");
    out.append(text.as_str());
    out.append("':x=10:y=10:fontsize=96:fontcolor=white:box=1:boxcolor=black@0.5");
    assert(out@ =~= overlay_filter_spec(font_path@, caption@));
    out
}

/// A timestamp given in milliseconds, written in seconds with three decimals.
pub open spec fn timestamp_text_spec(ms: nat) -> Seq<char> {
    decimal(ms / 1000) + "."@ + seq![
        digit_char((ms % 1000) / 100),
        digit_char((ms % 100) / 10),
        digit_char(ms % 10),
    ]
}

/// The tiling filter that lays frames out `cols` wide and `rows` high.
pub open spec fn tile_filter_spec(cols: nat, rows: nat) -> Seq<char> {
    "tile="@ + decimal(cols) + "x"@ + decimal(rows)
}

/// Seconds with three decimals for a timestamp in milliseconds (`1500` gives `1.500`).
pub fn timestamp_text(ms: u64) -> (r: String)
    ensures
        r@ == timestamp_text_spec(ms as nat),
{
    let mut out = String::new();
    push_decimal(&mut out, ms / 1000);
    out.append(".");
    push_digit(&mut out, (ms % 1000) / 100);
    push_digit(&mut out, (ms % 100) / 10);
    push_digit(&mut out, ms % 10);
    assert(out@ =~= timestamp_text_spec(ms as nat));
    out
}

/// The tiling filter `tile=<cols>x<rows>`.
pub fn tile_filter(cols: u64, rows: u64) -> (r: String)
    ensures
        r@ == tile_filter_spec(cols as nat, rows as nat),
{
    let mut out = String::from_str("tile=");
    push_decimal(&mut out, cols);
    out.append("x");
    push_decimal(&mut out, rows);
    assert(out@ =~= tile_filter_spec(cols as nat, rows as nat));
    out
}

} // verus!
