//! The animation store: named frame sequences and the loader that builds
//! them from a bundle of raw files. A bundle holds numbered bitmap files,
//! one per frame (`0.bmp`, `1.bmp`, ...), and may hold a rate file whose
//! extension is `fps` and whose content is the playback rate in decimal.
//! The loader rejects incomplete or malformed bundles and leaves the store
//! unchanged when it does; every animation the store holds has at least
//! one frame and a rate of 1 to 255.
use vstd::prelude::*;

verus! {

use crate::messages::{Animation, AnimationFrame, CommandError, FRAME_BYTES, GRID_HEIGHT,
    GRID_WIDTH};

/// Channel ceiling the loader scales pixel values to, protecting the
/// fixtures from overheating: a full-brightness channel of 255 becomes
/// this value.
pub const CHANNEL_CEILING: u16 = 100;

/// A scaled color channel.
pub open spec fn spec_scale(c: u8) -> u8 {
    ((c as int) * (CHANNEL_CEILING as int) / 255) as u8
}

/// The pixels a decoded bitmap yields: three bytes per pixel, row-major.
/// The decoding itself is the image library's; only its result is named.
pub uninterp spec fn bmp_rgb_of(b: Seq<u8>) -> Seq<u8>;

/// Whether bytes decode as a bitmap at all: the image library's success
/// condition, a function of the bytes alone, under its name.
pub uninterp spec fn bmp_decodes(b: Seq<u8>) -> bool;

/// Relies on `image::load_from_memory_with_format` with the bitmap format,
/// and on `DynamicImage::into_rgb8`: whether the bytes decode, and the
/// decoded pixel bytes, are each a function of the input bytes alone.
#[verifier::external_body]
fn decode_bmp_rgb(bytes: &Vec<u8>) -> (r: Option<Vec<u8>>)
    ensures
        r is Some <==> bmp_decodes(bytes@),
        r matches Some(v) ==> v@ == bmp_rgb_of(bytes@),
{
    match image::load_from_memory_with_format(bytes.as_slice(), image::ImageFormat::Bmp) {
        Ok(img) => Some(img.into_rgb8().into_raw()),
        Err(_) => None,
    }
}

/// The pixel triple a flattened frame holds for row `i`, column `j`.
pub open spec fn spec_pixel_of(rgb: Seq<u8>, i: int, j: int) -> (u8, u8, u8) {
    (
        spec_scale(rgb[i * 21 + j * 3]),
        spec_scale(rgb[i * 21 + j * 3 + 1]),
        spec_scale(rgb[i * 21 + j * 3 + 2]),
    )
}

/// Whether a frame grid holds exactly the scaled pixels of a flattened
/// byte sequence.
pub open spec fn frame_matches_rgb(f: AnimationFrame, rgb: Seq<u8>) -> bool {
    forall|i: int, j: int|
        0 <= i < GRID_HEIGHT && 0 <= j < GRID_WIDTH ==> f@[i]@[j] == spec_pixel_of(rgb, i, j)
}

fn scale_channel(c: u8) -> (r: u8)
    ensures
        r == spec_scale(c),
{
    ((c as u16) * CHANNEL_CEILING / 255) as u8
}

/// Build a frame grid from decoded pixel bytes, scaling every channel to
/// the configured ceiling. Accepts exactly a whole grid's worth of bytes.
pub fn frame_from_rgb(rgb: &Vec<u8>) -> (r: Result<AnimationFrame, CommandError>)
    ensures
        r is Ok <==> rgb@.len() == FRAME_BYTES,
        r matches Ok(f) ==> frame_matches_rgb(f, rgb@),
        r matches Err(e) ==> e == CommandError::InvalidFormat,
{
    if rgb.len() != FRAME_BYTES {
        return Err(CommandError::InvalidFormat);
    }
    let mut frame: AnimationFrame = [[(0u8, 0u8, 0u8); 7]; 22];
    let mut i: usize = 0;
    while i < GRID_HEIGHT
        invariant
            0 <= i <= GRID_HEIGHT,
            rgb@.len() == FRAME_BYTES,
            frame@.len() == GRID_HEIGHT,
            forall|a: int, b: int|
                0 <= a < i && 0 <= b < GRID_WIDTH ==> frame@[a]@[b] == spec_pixel_of(rgb@, a, b),
        decreases GRID_HEIGHT - i,
    {
        let mut row: [(u8, u8, u8); 7] = [(0u8, 0u8, 0u8); 7];
        let mut j: usize = 0;
        while j < GRID_WIDTH
            invariant
                0 <= j <= GRID_WIDTH,
                0 <= i < GRID_HEIGHT,
                rgb@.len() == FRAME_BYTES,
                row@.len() == GRID_WIDTH,
                forall|b: int| 0 <= b < j ==> row@[b] == spec_pixel_of(rgb@, i as int, b),
            decreases GRID_WIDTH - j,
        {
            let base = i * 21 + j * 3;
            let r = scale_channel(*vstd::slice::slice_index_get(rgb.as_slice(), base));
            let g = scale_channel(*vstd::slice::slice_index_get(rgb.as_slice(), base + 1));
            let b = scale_channel(*vstd::slice::slice_index_get(rgb.as_slice(), base + 2));
            row[j] = (r, g, b);
            j = j + 1;
        }
        frame[i] = row;
        i = i + 1;
    }
    Ok(frame)
}

/// Build a frame from the bytes of one bitmap file. Succeeds exactly when
/// the bitmap decodes and holds exactly one grid of pixels.
pub fn parse_bmp(read: &Vec<u8>) -> (r: Result<AnimationFrame, CommandError>)
    ensures
        r is Ok <==> bmp_decodes(read@) && bmp_rgb_of(read@).len() == FRAME_BYTES,
        r matches Ok(f) ==> frame_matches_rgb(f, bmp_rgb_of(read@)),
        r matches Err(e) ==> e == CommandError::InvalidFormat,
{
    match decode_bmp_rgb(read) {
        Some(rgb) => frame_from_rgb(&rgb),
        None => Err(CommandError::InvalidFormat),
    }
}

/// ASCII whitespace, as a rate file may pad its number with.
pub open spec fn is_ascii_ws(b: u8) -> bool {
    b == 32 || b == 9 || b == 10 || b == 13
}

/// The bytes with leading ASCII whitespace removed.
pub open spec fn trim_front(s: Seq<u8>) -> Seq<u8>
    decreases s.len(),
{
    if s.len() > 0 && is_ascii_ws(s[0]) {
        trim_front(s.drop_first())
    } else {
        s
    }
}

/// The bytes with trailing ASCII whitespace removed.
pub open spec fn trim_back(s: Seq<u8>) -> Seq<u8>
    decreases s.len(),
{
    if s.len() > 0 && is_ascii_ws(s.last()) {
        trim_back(s.drop_last())
    } else {
        s
    }
}

/// An ASCII decimal digit.
pub open spec fn is_digit(b: u8) -> bool {
    48 <= b <= 57
}

/// Every byte a digit.
pub open spec fn all_digits(s: Seq<u8>) -> bool {
    forall|i: int| 0 <= i < s.len() ==> is_digit(s[i])
}

/// The number a digit string spells.
pub open spec fn dec_value(s: Seq<u8>) -> int
    decreases s.len(),
{
    if s.len() == 0 {
        0
    } else {
        dec_value(s.drop_last()) * 10 + (s.last() - 48)
    }
}

/// What a rate file's bytes mean: its content, with surrounding whitespace
/// removed, must be a decimal number from 1 to 255.
pub open spec fn spec_parse_fps(b: Seq<u8>) -> Option<u8> {
    let t = trim_back(trim_front(b));
    if t.len() > 0 && all_digits(t) && 1 <= dec_value(t) <= 255 {
        Some(dec_value(t) as u8)
    } else {
        None
    }
}

proof fn lemma_dec_value_nonneg(s: Seq<u8>)
    requires
        all_digits(s),
    ensures
        dec_value(s) >= 0,
    decreases s.len(),
{
    if s.len() > 0 {
        assert(all_digits(s.drop_last()));
        lemma_dec_value_nonneg(s.drop_last());
    }
}

proof fn lemma_dec_value_take_le(s: Seq<u8>, k: int)
    requires
        all_digits(s),
        0 <= k <= s.len(),
    ensures
        dec_value(s.take(k)) <= dec_value(s),
    decreases s.len() - k,
{
    if k < s.len() {
        lemma_dec_value_take_le(s, k + 1);
        assert(s.take(k + 1).drop_last() =~= s.take(k));
        assert(all_digits(s.take(k)));
        lemma_dec_value_nonneg(s.take(k));
        assert(dec_value(s.take(k + 1)) == dec_value(s.take(k)) * 10 + (s[k] - 48));
        assert(dec_value(s.take(k)) * 10 >= dec_value(s.take(k)));
    } else {
        assert(s.take(k) =~= s);
    }
}

/// Parse a rate file: the playback rate it declares, if it declares a
/// valid one.
pub fn parse_fps(bytes: &Vec<u8>) -> (r: Option<u8>)
    ensures
        r == spec_parse_fps(bytes@),
{
    let s = Ghost(bytes@);
    let n = bytes.len();
    let mut start: usize = 0;
    proof {
        assert(s@.skip(0) =~= s@);
    }
    loop
        invariant_except_break
            0 <= start <= n,
            s@ == bytes@,
            n == s@.len(),
            trim_front(s@.skip(start as int)) == trim_front(s@),
        ensures
            0 <= start <= n,
            s@ == bytes@,
            n == s@.len(),
            s@.skip(start as int) == trim_front(s@),
        decreases n - start,
    {
        if start >= n {
            assert(s@.skip(start as int) =~= trim_front(s@));
            break ;
        }
        let b = *vstd::slice::slice_index_get(bytes.as_slice(), start);
        if !(b == 32 || b == 9 || b == 10 || b == 13) {
            assert(s@.skip(start as int) =~= trim_front(s@));
            break ;
        }
        proof {
            assert(s@.skip(start as int).drop_first() =~= s@.skip(start as int + 1));
        }
        start = start + 1;
    }
    let ghost t0 = s@.skip(start as int);
    let mut m: usize = n - start;
    proof {
        assert(t0.take(m as int) =~= t0);
    }
    loop
        invariant_except_break
            0 <= m <= n - start,
            s@ == bytes@,
            n == s@.len(),
            t0 == s@.skip(start as int),
            trim_back(t0.take(m as int)) == trim_back(t0),
        ensures
            0 <= m <= n - start,
            s@ == bytes@,
            n == s@.len(),
            t0 == s@.skip(start as int),
            t0.take(m as int) == trim_back(t0),
        decreases m,
    {
        if m == 0 {
            assert(t0.take(m as int) =~= trim_back(t0));
            break ;
        }
        let b = *vstd::slice::slice_index_get(bytes.as_slice(), start + m - 1);
        assert(t0.take(m as int).last() == b);
        if !(b == 32 || b == 9 || b == 10 || b == 13) {
            assert(t0.take(m as int) =~= trim_back(t0));
            break ;
        }
        proof {
            assert(t0.take(m as int).drop_last() =~= t0.take(m as int - 1));
        }
        m = m - 1;
    }
    let ghost t = trim_back(trim_front(s@));
    assert(t == t0.take(m as int));
    if m == 0 {
        return None;
    }
    let mut val: u32 = 0;
    let mut k: usize = 0;
    while k < m
        invariant
            0 <= k <= m <= n - start,
            s@ == bytes@,
            n == s@.len(),
            t == s@.skip(start as int).take(m as int),
            t == trim_back(trim_front(s@)),
            all_digits(t.take(k as int)),
            val == dec_value(t.take(k as int)),
            val <= 255,
        decreases m - k,
    {
        let b = *vstd::slice::slice_index_get(bytes.as_slice(), start + k);
        assert(t[k as int] == b);
        if !(48 <= b && b <= 57) {
            assert(!all_digits(t));
            return None;
        }
        proof {
            assert(t.take(k as int + 1).drop_last() =~= t.take(k as int));
        }
        val = val * 10 + (b - 48) as u32;
        k = k + 1;
        assert(all_digits(t.take(k as int)));
        if val > 255 {
            proof {
                assert(t.take(k as int) =~= t.take(k as int).take(k as int));
                if all_digits(t) {
                    lemma_dec_value_take_le(t, k as int);
                }
            }
            return None;
        }
    }
    assert(t.take(m as int) =~= t);
    if val == 0 {
        return None;
    }
    Some(val as u8)
}

/// Value of a decimal digit character, or a negative marker.
pub open spec fn spec_char_digit(c: char) -> int {
    if c == '0' {
        0
    } else if c == '1' {
        1
    } else if c == '2' {
        2
    } else if c == '3' {
        3
    } else if c == '4' {
        4
    } else if c == '5' {
        5
    } else if c == '6' {
        6
    } else if c == '7' {
        7
    } else if c == '8' {
        8
    } else if c == '9' {
        9
    } else {
        -1
    }
}

/// Every character a decimal digit.
pub open spec fn all_digit_chars(s: Seq<char>) -> bool {
    forall|i: int| 0 <= i < s.len() ==> spec_char_digit(s[i]) >= 0
}

/// The number a digit string spells.
pub open spec fn dec_value_chars(s: Seq<char>) -> int
    decreases s.len(),
{
    if s.len() == 0 {
        0
    } else {
        dec_value_chars(s.drop_last()) * 10 + spec_char_digit(s.last())
    }
}

/// What a bitmap file's stem means: its frame index, when the stem is all
/// digits and the value fits the machine.
pub open spec fn spec_parse_index(s: Seq<char>) -> Option<int> {
    if s.len() > 0 && all_digit_chars(s) && dec_value_chars(s) <= usize::MAX {
        Some(dec_value_chars(s))
    } else {
        None
    }
}

proof fn lemma_dec_value_chars_nonneg(s: Seq<char>)
    requires
        all_digit_chars(s),
    ensures
        dec_value_chars(s) >= 0,
    decreases s.len(),
{
    if s.len() > 0 {
        assert(all_digit_chars(s.drop_last()));
        lemma_dec_value_chars_nonneg(s.drop_last());
    }
}

proof fn lemma_dec_value_chars_take_le(s: Seq<char>, k: int)
    requires
        all_digit_chars(s),
        0 <= k <= s.len(),
    ensures
        dec_value_chars(s.take(k)) <= dec_value_chars(s),
    decreases s.len() - k,
{
    if k < s.len() {
        lemma_dec_value_chars_take_le(s, k + 1);
        assert(s.take(k + 1).drop_last() =~= s.take(k));
        assert(all_digit_chars(s.take(k)));
        lemma_dec_value_chars_nonneg(s.take(k));
        assert(dec_value_chars(s.take(k + 1)) == dec_value_chars(s.take(k)) * 10 + spec_char_digit(
            s[k],
        ));
        assert(dec_value_chars(s.take(k)) * 10 >= dec_value_chars(s.take(k)));
    } else {
        assert(s.take(k) =~= s);
    }
}

fn char_digit(c: char) -> (r: i8)
    ensures
        r == spec_char_digit(c),
{
    match c {
        '0' => 0,
        '1' => 1,
        '2' => 2,
        '3' => 3,
        '4' => 4,
        '5' => 5,
        '6' => 6,
        '7' => 7,
        '8' => 8,
        '9' => 9,
        _ => -1,
    }
}

/// Parse a bitmap file's stem as a frame index.
pub fn parse_frame_index(s: &str) -> (r: Option<usize>)
    ensures
        r matches Some(v) ==> spec_parse_index(s@) == Some(v as int),
        r is None <==> spec_parse_index(s@) is None,
{
    let n = s.unicode_len();
    if n == 0 {
        return None;
    }
    let mut val: usize = 0;
    let mut k: usize = 0;
    while k < n
        invariant
            0 <= k <= n == s@.len(),
            all_digit_chars(s@.take(k as int)),
            val == dec_value_chars(s@.take(k as int)),
        decreases n - k,
    {
        let c = s.get_char(k);
        let d = char_digit(c);
        if d < 0 {
            assert(!all_digit_chars(s@));
            return None;
        }
        proof {
            assert(s@.take(k as int + 1).drop_last() =~= s@.take(k as int));
        }
        if val > (usize::MAX - d as usize) / 10 {
            proof {
                vstd::arithmetic::div_mod::lemma_fundamental_div_mod(
                    usize::MAX - spec_char_digit(c),
                    10,
                );
                assert(all_digit_chars(s@.take(k as int + 1)));
                if all_digit_chars(s@) {
                    lemma_dec_value_chars_take_le(s@, k as int + 1);
                }
            }
            return None;
        }
        val = val * 10 + d as usize;
        k = k + 1;
        assert(all_digit_chars(s@.take(k as int)));
    }
    assert(s@.take(n as int) =~= s@);
    Some(val)
}

/// Index of the last dot in a file name, or a negative marker.
pub open spec fn last_dot(s: Seq<char>) -> int
    decreases s.len(),
{
    if s.len() == 0 {
        -1
    } else if s.last() == '.' {
        s.len() - 1
    } else {
        last_dot(s.drop_last())
    }
}

/// Split a file name at its last dot into stem and extension. A name
/// without a dot does not split.
pub fn split_name(name: &str) -> (r: Option<(String, String)>)
    ensures
        r is Some <==> last_dot(name@) >= 0,
        r matches Some(p) ==> p.0@ == name@.take(last_dot(name@)) && p.1@ == name@.skip(
            last_dot(name@) + 1,
        ),
{
    let n = name.unicode_len();
    let mut k: usize = n;
    proof {
        assert(name@.take(n as int) =~= name@);
    }
    loop
        invariant_except_break
            0 <= k <= n == name@.len(),
            last_dot(name@.take(k as int)) == last_dot(name@),
        ensures
            0 <= k <= n == name@.len(),
            last_dot(name@) == k - 1,
            k >= 1 ==> name@[k as int - 1] == '.',
        decreases k,
    {
        if k == 0 {
            break ;
        }
        let c = name.get_char(k - 1);
        if c == '.' {
            assert(name@.take(k as int).last() == '.');
            break ;
        }
        proof {
            assert(name@.take(k as int).drop_last() =~= name@.take(k as int - 1));
        }
        k = k - 1;
    }
    if k == 0 {
        return None;
    }
    let stem = name.substring_char(0, k - 1).to_owned();
    let ext = name.substring_char(k, n).to_owned();
    assert(stem@ =~= name@.take(last_dot(name@)));
    assert(ext@ =~= name@.skip(last_dot(name@) + 1));
    Some((stem, ext))
}

/// Whether a file name, split at its last dot, carries this extension.
pub open spec fn has_ext(name: Seq<char>, ext: Seq<char>) -> bool {
    last_dot(name) >= 0 && name.skip(last_dot(name) + 1) == ext
}

/// Whether one bundle entry is the bitmap of frame `fi`.
pub open spec fn is_frame_entry(e: (String, Vec<u8>), fi: int) -> bool {
    has_ext(e.0@, "bmp"@) && spec_parse_index(e.0@.take(last_dot(e.0@))) == Some(fi)
}

/// What the loader builds from a bundle: the animation carries the given
/// name, at least one frame, the playback rate the bundle declares, each
/// frame is the decoded, scaled pixels of a bitmap entry of that index,
/// and every bitmap entry's index falls inside the frame sequence — the
/// sequence is exactly as long as the numbering reaches.
pub open spec fn loaded_bundle(a: Animation, name: Seq<char>, files: Seq<(String, Vec<u8>)>) -> bool {
    a.name@ == name && a.frames@.len() >= 1 && Some(a.fps) == spec_bundle_fps(files) && (forall|
        fi: int,
    |
        #![trigger a.frames@[fi]]
        0 <= fi < a.frames@.len() ==> frame_from_bundle(a.frames@[fi], fi, files)) && (forall|
        e: int,
        fi: int,
    |
        #![trigger is_frame_entry(files[e], fi)]
        0 <= e < files.len() && is_frame_entry(files[e], fi) ==> fi < a.frames@.len())
}

/// Whether a frame is the decoded, scaled pixels of some bitmap entry of
/// the bundle carrying this frame index.
pub open spec fn frame_from_bundle(f: AnimationFrame, fi: int, files: Seq<(String, Vec<u8>)>) -> bool {
    exists|e: int|
        0 <= e < files.len() && is_frame_entry(#[trigger] files[e], fi) && frame_matches_rgb(
            f,
            bmp_rgb_of(files[e].1@),
        )
}

/// The playback rate a bundle declares: that of its last rate file, or 1
/// when it has none. Nothing, when the last rate file does not parse.
pub open spec fn spec_bundle_fps(files: Seq<(String, Vec<u8>)>) -> Option<u8>
    decreases files.len(),
{
    if files.len() == 0 {
        Some(1u8)
    } else if has_ext(files.last().0@, "fps"@) {
        spec_parse_fps(files.last().1@)
    } else {
        spec_bundle_fps(files.drop_last())
    }
}

/// One more than the highest frame index any bitmap entry of the bundle
/// carries: how many frames a complete bundle covers.
pub open spec fn spec_frame_count(files: Seq<(String, Vec<u8>)>) -> int
    decreases files.len(),
{
    if files.len() == 0 {
        0
    } else {
        let rest = spec_frame_count(files.drop_last());
        let e = files.last();
        if has_ext(e.0@, "bmp"@) && spec_parse_index(e.0@.take(last_dot(e.0@))) is Some {
            let fi = spec_parse_index(e.0@.take(last_dot(e.0@)))->Some_0;
            if fi + 1 > rest {
                fi + 1
            } else {
                rest
            }
        } else {
            rest
        }
    }
}

/// Whether some bundle entry is the bitmap of frame `fi`.
pub open spec fn has_frame_entry(files: Seq<(String, Vec<u8>)>, fi: int) -> bool {
    exists|e: int| 0 <= e < files.len() && is_frame_entry(#[trigger] files[e], fi)
}

/// A bundle the loader accepts: every file name splits at a dot; every
/// bitmap entry's stem is a frame index and its bytes decode to exactly
/// one grid of pixels; every rate file declares a rate of 1 to 255; there
/// is at least one frame; and the frame numbering has no gap — every
/// index below the highest is covered.
pub open spec fn bundle_ok(files: Seq<(String, Vec<u8>)>) -> bool {
    (forall|e: int| 0 <= e < files.len() ==> last_dot((#[trigger] files[e]).0@) >= 0) && (forall|
        e: int,
    |
        0 <= e < files.len() && has_ext((#[trigger] files[e]).0@, "bmp"@) ==> spec_parse_index(
            files[e].0@.take(last_dot(files[e].0@)),
        ) is Some && bmp_decodes(files[e].1@) && bmp_rgb_of(files[e].1@).len() == FRAME_BYTES) && (
    forall|e: int|
        0 <= e < files.len() && has_ext((#[trigger] files[e]).0@, "fps"@) ==> spec_parse_fps(
            files[e].1@,
        ) is Some) && spec_frame_count(files) >= 1 && (forall|fi: int|
        0 <= fi < spec_frame_count(files) ==> #[trigger] has_frame_entry(files, fi))
}

/// Index of the first animation with this name, or the length when there
/// is none.
pub open spec fn anim_idx(s: Seq<Animation>, name: Seq<char>) -> int
    decreases s.len(),
{
    if s.len() == 0 {
        0
    } else if s[0].name@ == name {
        0
    } else {
        1 + anim_idx(s.drop_first(), name)
    }
}

/// Whether the store holds an animation with this name.
pub open spec fn has_anim(s: Seq<Animation>, name: Seq<char>) -> bool {
    anim_idx(s, name) < s.len()
}

pub proof fn lemma_anim_idx(s: Seq<Animation>, name: Seq<char>)
    ensures
        0 <= anim_idx(s, name) <= s.len(),
        anim_idx(s, name) < s.len() ==> s[anim_idx(s, name)].name@ == name,
        forall|j: int| 0 <= j < anim_idx(s, name) ==> s[j].name@ != name,
    decreases s.len(),
{
    if s.len() > 0 && s[0].name@ != name {
        lemma_anim_idx(s.drop_first(), name);
        assert forall|j: int| 0 <= j < anim_idx(s, name) implies s[j].name@ != name by {
            if j > 0 {
                assert(s.drop_first()[j - 1] == s[j]);
            }
        }
    }
}

/// Names unique, and every entry playable: a rate of at least 1 and at
/// least one frame.
pub open spec fn store_wf(s: Seq<Animation>) -> bool {
    (forall|i: int, j: int|
        0 <= i < j < s.len() ==> (#[trigger] s[i].name@) != (#[trigger] s[j].name@)) && (forall|
        i: int,
    |
        0 <= i < s.len() ==> (#[trigger] s[i]).fps >= 1 && s[i].frames@.len() >= 1)
}

/// Whether a store grew out of another by inserting one animation:
/// replacing the entry of the same name, or appended when the name is new.
pub open spec fn upserted(old_s: Seq<Animation>, new_s: Seq<Animation>, a: Animation) -> bool {
    if has_anim(old_s, a.name@) {
        new_s == old_s.update(anim_idx(old_s, a.name@), a)
    } else {
        new_s == old_s.push(a)
    }
}

/// The in-memory animation store.
#[derive(Debug)]
pub struct AnimationHandler {
    pub animations: Vec<Animation>,
}

impl Default for AnimationHandler {
    /// An empty store; the caller feeds it persisted bundles through
    /// `load`.
    fn default() -> (r: AnimationHandler)
        ensures
            r.animations@ == Seq::<Animation>::empty(),
            r.wf(),
    {
        AnimationHandler { animations: Vec::new() }
    }
}

impl AnimationHandler {
    /// The store's invariant.
    pub open spec fn wf(&self) -> bool {
        store_wf(self.animations@)
    }

    /// Look an animation up by name.
    pub fn find(&self, name: &String) -> (r: Option<&Animation>)
        ensures
            r is Some <==> has_anim(self.animations@, name@),
            r matches Some(a) ==> anim_idx(self.animations@, name@) < self.animations@.len() && *a
                == self.animations@[anim_idx(self.animations@, name@)],
    {
        let ghost s = self.animations@;
        let mut i: usize = 0;
        proof {
            lemma_anim_idx(s, name@);
        }
        while i < self.animations.len()
            invariant
                0 <= i <= s.len(),
                s == self.animations@,
                0 <= anim_idx(s, name@) <= s.len(),
                anim_idx(s, name@) < s.len() ==> s[anim_idx(s, name@)].name@ == name@,
                forall|j: int| 0 <= j < anim_idx(s, name@) ==> s[j].name@ != name@,
                forall|j: int| 0 <= j < i ==> s[j].name@ != name@,
            decreases s.len() - i,
        {
            if self.animations[i].name == *name {
                assert(anim_idx(s, name@) == i);
                return Some(&self.animations[i]);
            }
            i = i + 1;
        }
        assert(!has_anim(s, name@)) by {
            if anim_idx(s, name@) < s.len() {
                assert(s[anim_idx(s, name@)].name@ == name@);
            }
        }
        None
    }

    /// Insert an animation, replacing any entry of the same name.
    #[verifier::loop_isolation(false)]
    fn upsert(&mut self, anim: Animation)
        requires
            old(self).wf(),
            anim.fps >= 1,
            anim.frames@.len() >= 1,
        ensures
            final(self).wf(),
            upserted(old(self).animations@, final(self).animations@, anim),
    {
        let ghost s = self.animations@;
        proof {
            lemma_anim_idx(s, anim.name@);
            assert(store_wf(s));
        }
        let mut i: usize = 0;
        while i < self.animations.len()
            invariant
                0 <= i <= s.len(),
                s == self.animations@,
                store_wf(s),
                0 <= anim_idx(s, anim.name@) <= s.len(),
                anim_idx(s, anim.name@) < s.len() ==> s[anim_idx(s, anim.name@)].name@
                    == anim.name@,
                forall|j: int| 0 <= j < anim_idx(s, anim.name@) ==> s[j].name@ != anim.name@,
                forall|j: int| 0 <= j < i ==> s[j].name@ != anim.name@,
            decreases s.len() - i,
        {
            if self.animations[i].name == anim.name {
                assert(anim_idx(s, anim.name@) == i);
                let ghost anim_g = anim;
                self.animations[i] = anim;
                proof {
                    let t = self.animations@;
                    assert(t =~= s.update(i as int, anim_g));
                    assert forall|a: int, b: int|
                        0 <= a < b < t.len() implies (#[trigger] t[a].name@)
                        != (#[trigger] t[b].name@) by {
                        assert(s[a].name@ != s[b].name@);
                    }
                    assert forall|a: int|
                        0 <= a < t.len() implies (#[trigger] t[a]).fps >= 1
                        && t[a].frames@.len() >= 1 by {
                        if a == i as int {
                            assert(t[a] == anim_g);
                        } else {
                            assert(t[a] == s[a]);
                            assert(s[a].fps >= 1 && s[a].frames@.len() >= 1);
                        }
                    }
                }
                return ;
            }
            i = i + 1;
        }
        assert(!has_anim(s, anim.name@)) by {
            if anim_idx(s, anim.name@) < s.len() {
                assert(s[anim_idx(s, anim.name@)].name@ == anim.name@);
            }
        }
        let ghost anim_g = anim;
        self.animations.push(anim);
        proof {
            let t = self.animations@;
            assert(t =~= s.push(anim_g));
            assert forall|j: int| 0 <= j < s.len() implies (#[trigger] s[j].name@) != anim.name@
            by {}
            assert forall|a: int, b: int| 0 <= a < b < t.len() implies (#[trigger] t[a].name@)
                != (#[trigger] t[b].name@) by {
                if b < s.len() {
                    assert(s[a].name@ != s[b].name@);
                }
            }
            assert forall|a: int|
                0 <= a < t.len() implies (#[trigger] t[a]).fps >= 1
                && t[a].frames@.len() >= 1 by {}
        }
    }

    /// Load one named bundle of raw files into the store: numbered bitmap
    /// files become the frame sequence, a rate file sets the playback
    /// rate, and files of any other extension are ignored. Succeeds on
    /// exactly the well-formed bundles (`bundle_ok`); every other bundle —
    /// a file name without an extension, a bitmap that does not decode to
    /// one grid of pixels, a rate outside 1 to 255, a gap in the frame
    /// numbering, or no frame at all — is rejected and the store left
    /// unchanged.
    #[verifier::loop_isolation(false)]
    #[verifier::rlimit(60)]
    pub fn load(&mut self, name: &str, files: &Vec<(String, Vec<u8>)>) -> (r: Result<
        (),
        CommandError,
    >)
        requires
            old(self).wf(),
        ensures
            final(self).wf(),
            r is Ok <==> bundle_ok(files@),
            r matches Err(e) ==> final(self).animations@ == old(self).animations@ && e
                == CommandError::InvalidFormat,
            r is Ok ==> exists|a: Animation|
                loaded_bundle(a, name@, files@) && #[trigger] upserted(
                    old(self).animations@,
                    final(self).animations@,
                    a,
                ),
    {
        let ghost fseq = files@;
        let mut frames_opt: Vec<Option<AnimationFrame>> = Vec::new();
        let mut fps: u8 = 1;
        let mut k: usize = 0;
        proof {
            assert(fseq.take(0int) =~= Seq::<(String, Vec<u8>)>::empty());
        }
        while k < files.len()
            invariant
                0 <= k <= fseq.len(),
                fseq == files@,
                fps >= 1,
                Some(fps) == spec_bundle_fps(fseq.take(k as int)),
                frames_opt@.len() == spec_frame_count(fseq.take(k as int)),
                forall|e: int| 0 <= e < k ==> last_dot((#[trigger] fseq[e]).0@) >= 0,
                forall|e: int|
                    0 <= e < k && has_ext((#[trigger] fseq[e]).0@, "bmp"@) ==> spec_parse_index(
                        fseq[e].0@.take(last_dot(fseq[e].0@)),
                    ) is Some && bmp_decodes(fseq[e].1@) && bmp_rgb_of(fseq[e].1@).len()
                        == FRAME_BYTES,
                forall|e: int|
                    0 <= e < k && has_ext((#[trigger] fseq[e]).0@, "fps"@) ==> spec_parse_fps(
                        fseq[e].1@,
                    ) is Some,
                forall|fi: int|
                    0 <= fi < frames_opt@.len() && (#[trigger] frames_opt@[fi]) is Some
                        ==> exists|e: int|
                        0 <= e < k && is_frame_entry(#[trigger] fseq[e], fi) && frame_matches_rgb(
                            frames_opt@[fi]->Some_0,
                            bmp_rgb_of(fseq[e].1@),
                        ),
                forall|e: int, fi: int|
                    #![trigger is_frame_entry(fseq[e], fi)]
                    0 <= e < k && is_frame_entry(fseq[e], fi) ==> 0 <= fi < frames_opt@.len()
                        && frames_opt@[fi] is Some,
                self.animations@ == old(self).animations@,
            decreases files@.len() - k,
        {
            proof {
                assert(fseq.take(k as int + 1).drop_last() =~= fseq.take(k as int));
                assert(fseq.take(k as int + 1).last() == fseq[k as int]);
            }
            let entry_name = &files[k].0;
            let bytes = &files[k].1;
            match split_name(entry_name.as_str()) {
                None => {
                    assert(!bundle_ok(fseq)) by {
                        if bundle_ok(fseq) {
                            assert(last_dot(fseq[k as int].0@) >= 0);
                        }
                    }
                    return Err(CommandError::InvalidFormat);
                },
                Some((stem, ext)) => {
                    if ext == "bmp".to_owned() {
                        proof {
                            reveal_strlit("bmp");
                            reveal_strlit("fps");
                        }
                        assert(has_ext(entry_name@, "bmp"@));
                        assert(!has_ext(entry_name@, "fps"@)) by {
                            if has_ext(entry_name@, "fps"@) {
                                assert("bmp"@ == "fps"@);
                                assert("bmp"@[0] == 'b');
                                assert("fps"@[0] == 'f');
                            }
                        }
                        let index = match parse_frame_index(stem.as_str()) {
                            Some(v) => v,
                            None => {
                                assert(!bundle_ok(fseq)) by {
                                    if bundle_ok(fseq) {
                                        assert(spec_parse_index(
                                            fseq[k as int].0@.take(last_dot(fseq[k as int].0@)),
                                        ) is Some);
                                    }
                                }
                                return Err(CommandError::InvalidFormat);
                            },
                        };
                        let frame = match parse_bmp(bytes) {
                            Ok(f) => f,
                            Err(_) => {
                                assert(!bundle_ok(fseq)) by {
                                    if bundle_ok(fseq) {
                                        assert(bmp_decodes(fseq[k as int].1@) && bmp_rgb_of(
                                            fseq[k as int].1@,
                                        ).len() == FRAME_BYTES);
                                    }
                                }
                                return Err(CommandError::InvalidFormat);
                            },
                        };
                        assert(is_frame_entry(fseq[k as int], index as int));
                        let ghost pre_fo = frames_opt@;
                        while frames_opt.len() <= index
                            invariant
                                0 <= k < fseq.len(),
                                pre_fo.len() <= frames_opt@.len(),
                                frames_opt@.len() <= index + 1 || frames_opt@.len()
                                    == pre_fo.len(),
                                frames_opt@.take(pre_fo.len() as int) == pre_fo,
                                forall|j: int|
                                    pre_fo.len() <= j < frames_opt@.len() ==> (
                                    #[trigger] frames_opt@[j]) is None,
                                self.animations@ == old(self).animations@,
                            decreases index + 1 - frames_opt@.len(),
                        {
                            frames_opt.push(None);
                            assert(frames_opt@.take(pre_fo.len() as int) =~= pre_fo);
                        }
                        proof {
                            if pre_fo.len() <= index as int {
                                assert(frames_opt@.len() == index + 1);
                            } else {
                                assert(frames_opt@.len() == pre_fo.len());
                            }
                        }
                        let ghost padded = frames_opt@;
                        frames_opt[index] = Some(frame);
                        proof {
                            let cur = frames_opt@;
                            assert(cur =~= padded.update(index as int, Some(frame)));
                            assert forall|fi: int|
                                0 <= fi < pre_fo.len() && fi != index as int implies cur[fi]
                                == pre_fo[fi] by {
                                assert(padded.take(pre_fo.len() as int)[fi] == padded[fi]);
                            }
                            assert forall|fi: int|
                                0 <= fi < cur.len() && (#[trigger] cur[fi]) is Some implies exists|
                                e: int,
                            |
                                0 <= e < k + 1 && is_frame_entry(#[trigger] fseq[e], fi)
                                    && frame_matches_rgb(
                                    cur[fi]->Some_0,
                                    bmp_rgb_of(fseq[e].1@),
                                ) by {
                                if fi == index as int {
                                    assert(is_frame_entry(fseq[k as int], fi) && frame_matches_rgb(
                                        cur[fi]->Some_0,
                                        bmp_rgb_of(fseq[k as int].1@),
                                    ));
                                } else if fi < pre_fo.len() {
                                    assert(cur[fi] == pre_fo[fi]);
                                    let e0 = choose|e: int|
                                        0 <= e < k && is_frame_entry(#[trigger] fseq[e], fi)
                                            && frame_matches_rgb(
                                            pre_fo[fi]->Some_0,
                                            bmp_rgb_of(fseq[e].1@),
                                        );
                                    assert(is_frame_entry(fseq[e0], fi) && frame_matches_rgb(
                                        cur[fi]->Some_0,
                                        bmp_rgb_of(fseq[e0].1@),
                                    ));
                                } else {
                                    assert(padded[fi] is None);
                                }
                            }
                            assert forall|e: int, fi: int|
                                #![trigger is_frame_entry(fseq[e], fi)]
                                0 <= e < k + 1 && is_frame_entry(fseq[e], fi) implies 0 <= fi
                                < cur.len() && cur[fi] is Some by {
                                if e == k as int {
                                    assert(spec_parse_index(
                                        fseq[e].0@.take(last_dot(fseq[e].0@)),
                                    ) == Some(fi));
                                    assert(fi == index as int);
                                } else {
                                    assert(0 <= fi < pre_fo.len() && pre_fo[fi] is Some);
                                    if fi != index as int {
                                        assert(cur[fi] == pre_fo[fi]);
                                    }
                                }
                            }
                            assert(spec_frame_count(fseq.take(k as int + 1)) == cur.len());
                        }
                    } else if ext == "fps".to_owned() {
                        assert(has_ext(entry_name@, "fps"@));
                        assert(!has_ext(entry_name@, "bmp"@)) by {
                            if has_ext(entry_name@, "bmp"@) {
                                assert(ext@ == "bmp"@);
                            }
                        }
                        match parse_fps(bytes) {
                            Some(v) => {
                                fps = v;
                            },
                            None => {
                                assert(!bundle_ok(fseq)) by {
                                    if bundle_ok(fseq) {
                                        assert(spec_parse_fps(fseq[k as int].1@) is Some);
                                    }
                                }
                                return Err(CommandError::InvalidFormat);
                            },
                        }
                    } else {
                        proof {
                            if has_ext(entry_name@, "fps"@) {
                                assert(ext@ == "fps"@);
                                assert(false);
                            }
                            if has_ext(entry_name@, "bmp"@) {
                                assert(ext@ == "bmp"@);
                                assert(false);
                            }
                        }
                    }
                },
            }
            k = k + 1;
        }
        proof {
            assert(fseq.take(fseq.len() as int) =~= fseq);
        }
        if frames_opt.len() == 0 {
            assert(!bundle_ok(fseq)) by {
                assert(spec_frame_count(fseq) == 0);
            }
            return Err(CommandError::InvalidFormat);
        }
        let mut frames: Vec<AnimationFrame> = Vec::new();
        let mut i: usize = 0;
        while i < frames_opt.len()
            invariant
                frames@.len() == i <= frames_opt@.len(),
                forall|fi: int|
                    #![trigger frames@[fi]]
                    0 <= fi < i ==> (#[trigger] frames_opt@[fi]) is Some && frames@[fi]
                        == frames_opt@[fi]->Some_0,
                self.animations@ == old(self).animations@,
            decreases frames_opt@.len() - i,
        {
            match frames_opt[i] {
                Some(f) => {
                    frames.push(f);
                },
                None => {
                    proof {
                        assert(0 <= i < spec_frame_count(fseq));
                        assert(!has_frame_entry(fseq, i as int)) by {
                            if has_frame_entry(fseq, i as int) {
                                let e0 = choose|e: int|
                                    0 <= e < fseq.len() && is_frame_entry(
                                        #[trigger] fseq[e],
                                        i as int,
                                    );
                                assert(frames_opt@[i as int] is Some);
                            }
                        }
                        assert(!bundle_ok(fseq));
                    }
                    return Err(CommandError::InvalidFormat);
                },
            }
            i = i + 1;
        }
        proof {
            assert(bundle_ok(fseq)) by {
                assert forall|e: int| 0 <= e < fseq.len() implies last_dot(
                    (#[trigger] fseq[e]).0@,
                ) >= 0 by {}
                assert forall|e: int|
                    0 <= e < fseq.len() && has_ext(
                        (#[trigger] fseq[e]).0@,
                        "bmp"@,
                    ) implies spec_parse_index(fseq[e].0@.take(last_dot(fseq[e].0@))) is Some
                    && bmp_decodes(fseq[e].1@) && bmp_rgb_of(fseq[e].1@).len() == FRAME_BYTES by {}
                assert forall|e: int|
                    0 <= e < fseq.len() && has_ext(
                        (#[trigger] fseq[e]).0@,
                        "fps"@,
                    ) implies spec_parse_fps(fseq[e].1@) is Some by {}
                assert(spec_frame_count(fseq) >= 1);
                assert forall|fi: int|
                    0 <= fi < spec_frame_count(fseq) implies #[trigger] has_frame_entry(
                    fseq,
                    fi,
                ) by {
                    assert(fi < frames_opt@.len());
                    assert(frames_opt@[fi] is Some);
                    let e0 = choose|e: int|
                        0 <= e < k && is_frame_entry(#[trigger] fseq[e], fi) && frame_matches_rgb(
                            frames_opt@[fi]->Some_0,
                            bmp_rgb_of(fseq[e].1@),
                        );
                    assert(0 <= e0 < fseq.len() && is_frame_entry(fseq[e0], fi));
                }
            }
        }
        let ghost fr = frames@;
        proof {
            assert forall|fi: int|
                #![trigger fr[fi]]
                0 <= fi < fr.len() implies exists|e: int|
                    0 <= e < fseq.len() && is_frame_entry(#[trigger] fseq[e], fi)
                        && frame_matches_rgb(fr[fi], bmp_rgb_of(fseq[e].1@)) by {
                assert(frames_opt@[fi] is Some && fr[fi] == frames_opt@[fi]->Some_0);
            }
        }
        let anim = Animation { name: name.to_owned(), frames, fps };
        let ghost a_wit = anim;
        self.upsert(anim);
        proof {
            assert(upserted(old(self).animations@, self.animations@, a_wit));
            assert(a_wit.name@ == name@);
            assert(a_wit.fps == fps);
            assert(k == fseq.len());
            assert(Some(fps) == spec_bundle_fps(fseq.take(k as int)));
            assert(fseq.take(k as int) == fseq);
            assert(Some(a_wit.fps) == spec_bundle_fps(files@));
            assert(a_wit.frames@ == fr);
            assert(fr.len() == frames_opt@.len());
            assert forall|fi: int|
                #![trigger a_wit.frames@[fi]]
                0 <= fi < a_wit.frames@.len() implies frame_from_bundle(
                a_wit.frames@[fi],
                fi,
                files@,
            ) by {
                assert(a_wit.frames@[fi] == fr[fi]);
                let e0 = choose|e: int|
                    0 <= e < fseq.len() && is_frame_entry(#[trigger] fseq[e], fi)
                        && frame_matches_rgb(fr[fi], bmp_rgb_of(fseq[e].1@));
                assert(0 <= e0 < files@.len() && is_frame_entry(files@[e0], fi)
                    && frame_matches_rgb(a_wit.frames@[fi], bmp_rgb_of(files@[e0].1@)));
            }
            assert forall|e: int, fi: int|
                #![trigger is_frame_entry(files@[e], fi)]
                0 <= e < files@.len() && is_frame_entry(files@[e], fi) implies fi
                < a_wit.frames@.len() by {
                assert(is_frame_entry(fseq[e], fi));
                assert(fi < frames_opt@.len());
            }
            assert(a_wit.frames@.len() >= 1);
            assert(loaded_bundle(a_wit, name@, files@));
        }
        Ok(())
    }
}

impl Animation {
    /// A copy with the same meaning, for handing out in a snapshot.
    pub fn duplicate(&self) -> (r: Animation)
        ensures
            r.name@ == self.name@,
            r.frames@ == self.frames@,
            r.fps == self.fps,
    {
        let mut frames: Vec<AnimationFrame> = Vec::new();
        let mut i: usize = 0;
        while i < self.frames.len()
            invariant
                frames@ == self.frames@.take(i as int),
                0 <= i <= self.frames@.len(),
            decreases self.frames@.len() - i,
        {
            frames.push(self.frames[i]);
            i = i + 1;
            assert(frames@ =~= self.frames@.take(i as int));
        }
        assert(frames@ =~= self.frames@);
        Animation { name: self.name.clone(), frames, fps: self.fps }
    }
}

} // verus!
