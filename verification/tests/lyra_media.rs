//! Media files of an import: artwork, ID3 tags and content sniffing.
use astro_plugins::lyra_import::artwork::{
    accept_decoded, aspect_fill_crop, average_color, background, check_source, choose_format, crop,
    decode, encode_lvgl_v9, half_colors, lerp, saturate, square_cover, square_crop, RgbaImage,
    SourceFormat, BACKGROUND_FADE_START, BACKGROUND_HEIGHT, BACKGROUND_WIDTH, COVER_BIN_BYTES,
    COVER_HEIGHT, COVER_WIDTH, MAX_SOURCE_BYTES,
};
use astro_plugins::lyra_import::id3::{
    decode_text_frame, frame_body, latin1_or_utf8, parse_id3v1, parse_id3v2, read_tags,
    resynchronise, split_terminated, syncsafe, utf16, TrackTags, MAX_TAG_BYTES,
};
use astro_plugins::lyra_import::sniff::{
    contains_mp3_frames, id3v2_tag_len, image_format, image_format_of, is_mp3, lyrics_format,
    mp3_frame_len, ImageFormat, LyricsFormat, MP3_SCAN_BYTES,
};

// ---------------------------------------------------------------- artwork

fn from_pixel(width: u32, height: u32, pixel: [u8; 4]) -> RgbaImage {
    RgbaImage { width, height, pixels: pixel.repeat((width * height) as usize) }
}

fn pixel(image: &RgbaImage, x: u32, y: u32) -> [u8; 4] {
    let at = ((y * image.width + x) * 4) as usize;
    [image.pixels[at], image.pixels[at + 1], image.pixels[at + 2], image.pixels[at + 3]]
}

#[test]
fn aspect_fill_uses_center_crop() {
    assert_eq!(aspect_fill_crop(800, 400, 336, 520), Ok((258, 400)));
    assert_eq!(aspect_fill_crop(400, 800, 336, 520), Ok((400, 619)));
}

#[test]
fn encoder_matches_lvgl_v9_bgra_layout() {
    let image = from_pixel(1, 1, [0x11, 0x22, 0x33, 0x44]);
    let bytes = encode_lvgl_v9(&image).unwrap();
    assert_eq!(
        bytes,
        [0x19, 0x10, 0, 0, 1, 0, 1, 0, 4, 0, 0, 0, 0x33, 0x22, 0x11, 0x44]
    );
}

#[test]
fn generated_dimensions_and_alpha_are_fixed() {
    let image = from_pixel(640, 320, [220, 80, 40, 100]);
    let cover = square_cover(&image);
    assert_eq!((cover.width, cover.height), (COVER_WIDTH, COVER_HEIGHT));
    let background = background(&image).unwrap();
    assert_eq!(
        (background.width, background.height),
        (BACKGROUND_WIDTH, BACKGROUND_HEIGHT)
    );
    for y in 0..BACKGROUND_FADE_START {
        for x in 0..BACKGROUND_WIDTH {
            assert_eq!(pixel(&background, x, y)[3], 255);
        }
    }
    assert_eq!(pixel(&background, 0, BACKGROUND_FADE_START)[3], 255);
    assert_eq!(pixel(&background, 0, BACKGROUND_HEIGHT - 1)[3], 0);
}

#[test]
fn background_alpha_fades_monotonically_after_480() {
    let image = from_pixel(640, 320, [220, 80, 40, 100]);
    let background = background(&image).unwrap();
    let mut previous = 255;
    for y in BACKGROUND_FADE_START..BACKGROUND_HEIGHT {
        let alpha = pixel(&background, 0, y)[3];
        assert!(alpha <= previous);
        previous = alpha;
    }
    assert_eq!(pixel(&background, 0, BACKGROUND_FADE_START)[3], 255);
    assert_eq!(pixel(&background, 0, BACKGROUND_HEIGHT - 1)[3], 0);
}

#[test]
fn a_uniform_picture_keeps_its_colour_when_scaled() {
    let cover = square_cover(&from_pixel(200, 120, [10, 200, 30, 255]));
    assert_eq!(pixel(&cover, 90, 90), [10, 200, 30, 255]);
    assert_eq!(encode_lvgl_v9(&cover).unwrap().len() as u64, COVER_BIN_BYTES);
}

fn png_of(width: u32, height: u32, pixel: [u8; 4]) -> Vec<u8> {
    let mut out = std::io::Cursor::new(Vec::new());
    image::RgbaImage::from_pixel(width, height, image::Rgba(pixel))
        .write_to(&mut out, image::ImageFormat::Png)
        .unwrap();
    out.into_inner()
}

#[test]
fn pictures_are_decoded_to_rgba() {
    let image = decode(&png_of(3, 2, [1, 2, 3, 4]), "").unwrap();
    assert_eq!((image.width, image.height), (3, 2));
    assert_eq!(pixel(&image, 2, 1), [1, 2, 3, 4]);
    assert!(decode(b"no picture at all", "png").is_err());
    assert!(decode(b"no picture at all", "txt").is_err());
    let mut damaged = png_of(3, 2, [1, 2, 3, 4]);
    damaged.truncate(30);
    assert!(decode(&damaged, "png").is_err());
    assert!(decode(&png_of(2049, 1, [0, 0, 0, 0]), "png").is_err());
}

#[test]
fn sources_are_checked_before_they_are_read() {
    assert!(check_source(true, 1).is_ok());
    assert!(check_source(false, 1).is_err());
    assert!(check_source(true, 0).is_err());
    assert!(check_source(true, MAX_SOURCE_BYTES).is_ok());
    assert!(check_source(true, MAX_SOURCE_BYTES + 1).is_err());
    assert_eq!(choose_format(Some(SourceFormat::Jpeg), None), Ok(false));
    assert_eq!(choose_format(None, Some(SourceFormat::Png)), Ok(true));
    assert!(choose_format(Some(SourceFormat::Another), Some(SourceFormat::Png)).is_err());
    assert!(choose_format(None, None).is_err());
    assert!(accept_decoded(Err("broken".into())).is_err());
}

#[test]
fn crops_are_centred_squares() {
    let mut image = from_pixel(4, 2, [0, 0, 0, 255]);
    image.pixels[4] = 9;
    let square = square_crop(&image);
    assert_eq!((square.width, square.height), (2, 2));
    assert_eq!(pixel(&square, 0, 0), [9, 0, 0, 255]);
    let one = crop(&image, 1, 0, 1, 1);
    assert_eq!(one.pixels, vec![9, 0, 0, 255]);
    assert!(aspect_fill_crop(0, 4, 1, 1).is_err());
}

#[test]
fn colours_are_mixed_in_integers() {
    assert_eq!(lerp(0, 255, 0), 0);
    assert_eq!(lerp(0, 255, 255), 255);
    assert_eq!(lerp(10, 10, 77), 10);
    assert!(saturate(200) >= saturate(100));
    let mut image = from_pixel(1, 2, [0, 0, 0, 255]);
    image.pixels[0] = 100;
    image.pixels[4] = 50;
    assert_eq!(average_color(&image, 0, 2).red, 75);
    let (top, bottom) = half_colors(&image);
    assert_eq!((top.red, bottom.red), (100, 50));
}

// ---------------------------------------------------------------- tags

fn syncsafe_bytes(size: usize) -> [u8; 4] {
    let size = size as u32;
    [3, 2, 1, 0].map(|shift| ((size >> (shift * 7)) & 0x7F) as u8)
}

fn frame(version: u8, id: &[u8], body: &[u8]) -> Vec<u8> {
    let mut out = id.to_vec();
    match version {
        2 => out.extend(&(body.len() as u32).to_be_bytes()[1..]),
        3 => out.extend((body.len() as u32).to_be_bytes()),
        _ => out.extend(syncsafe_bytes(body.len())),
    }
    if version != 2 {
        out.extend([0, 0]);
    }
    out.extend(body);
    out
}

fn text(encoding: u8, bytes: &[u8]) -> Vec<u8> {
    let mut out = vec![encoding];
    out.extend(bytes);
    out
}

fn utf16le_with_bom(value: &str) -> Vec<u8> {
    let mut out = vec![0xFF, 0xFE];
    out.extend(value.encode_utf16().flat_map(u16::to_le_bytes));
    out
}

fn tag(version: u8, frames: &[Vec<u8>]) -> Vec<u8> {
    let body: Vec<u8> = frames.concat();
    let mut out = vec![b'I', b'D', b'3', version, 0, 0];
    out.extend(syncsafe_bytes(body.len() + 32));
    out.extend(body);
    out.extend([0u8; 32]); // padding
    out
}

fn read_bytes(bytes: &[u8]) -> TrackTags {
    let start = &bytes[..bytes.len().min(10 + MAX_TAG_BYTES as usize)];
    let end = &bytes[bytes.len().saturating_sub(128)..];
    read_tags(start, end)
}

#[test]
fn reads_v24_utf8_with_multiple_artists() {
    let tags = read_bytes(&tag(
        4,
        &[
            frame(4, b"TIT2", &text(3, "晴天".as_bytes())),
            frame(4, b"TPE1", &text(3, "周杰伦\0方文山".as_bytes())),
            frame(4, b"TALB", &text(3, "叶惠美\0".as_bytes())),
        ],
    ));
    assert_eq!(tags.title.as_deref(), Some("晴天"));
    assert_eq!(tags.artist.as_deref(), Some("周杰伦 / 方文山"));
    assert_eq!(tags.album.as_deref(), Some("叶惠美"));
}

#[test]
fn reads_v23_utf16_and_skips_artwork_frames() {
    let artwork = frame(3, b"APIC", &vec![0xFF; 70_000]);
    let tags = read_bytes(&tag(
        3,
        &[
            artwork,
            frame(3, b"TIT2", &text(1, &utf16le_with_bom("七里香"))),
            frame(3, b"TPE1", &text(1, &utf16le_with_bom("周杰伦"))),
        ],
    ));
    assert_eq!(tags.title.as_deref(), Some("七里香"));
    assert_eq!(tags.artist.as_deref(), Some("周杰伦"));
    assert_eq!(tags.album, None);
}

#[test]
fn reads_v22_three_letter_frames() {
    let tags = read_bytes(&tag(
        2,
        &[
            frame(2, b"TT2", &text(0, b"Yesterday")),
            frame(2, b"TP1", &text(0, b"The Beatles")),
        ],
    ));
    assert_eq!(tags.title.as_deref(), Some("Yesterday"));
    assert_eq!(tags.artist.as_deref(), Some("The Beatles"));
}

#[test]
fn latin1_frames_accept_utf8_but_drop_unknown_codepages() {
    assert_eq!(latin1_or_utf8("稻香".as_bytes()).as_deref(), Some("稻香"));
    // "稻香" in GBK: not UTF-8, and not trustworthy as Latin-1 either.
    assert_eq!(latin1_or_utf8(&[0xB5, 0xBE, 0xCF, 0xE3]), None);
}

#[test]
fn falls_back_to_id3v1_for_missing_fields() {
    let mut bytes = tag(3, &[frame(3, b"TIT2", &text(0, b"Title v2"))]);
    bytes.extend(vec![0u8; 4096]);
    let mut v1 = [0u8; 128];
    v1[..3].copy_from_slice(b"TAG");
    v1[3..11].copy_from_slice(b"Title v1");
    v1[33..42].copy_from_slice(b"Artist v1");
    v1[63..71].copy_from_slice(b"Album v1");
    bytes.extend(v1);
    let tags = read_bytes(&bytes);
    assert_eq!(tags.title.as_deref(), Some("Title v2"));
    assert_eq!(tags.artist.as_deref(), Some("Artist v1"));
    assert_eq!(tags.album.as_deref(), Some("Album v1"));
}

#[test]
fn untagged_and_malformed_files_yield_nothing() {
    assert_eq!(read_bytes(&[0xFF, 0xFB, 0x90, 0x64]), TrackTags::default());
    // A frame claiming more bytes than the tag holds.
    let mut truncated = tag(3, &[]);
    truncated.splice(10..10, *b"TIT2\x00\x10\x00\x00\x00\x00\x03");
    assert_eq!(read_bytes(&truncated), TrackTags::default());
    assert_eq!(
        parse_id3v2(4, 0, frame(4, b"TIT2", &text(9, b"bad encoding"))),
        TrackTags::default()
    );
}

#[test]
fn unsynchronised_v23_tag_is_restored() {
    let body = [
        frame(3, b"TIT2", &text(1, &utf16le_with_bom("ÿ标题"))),
        frame(3, b"TPE1", &text(0, b"Artist")),
    ]
    .concat();
    let mut unsynced = Vec::new();
    for byte in &body {
        unsynced.push(*byte);
        if *byte == 0xFF {
            unsynced.push(0);
        }
    }
    // Without resynchronisation the inserted bytes would shift the second
    // frame out of place.
    let tags = parse_id3v2(3, 0x80, unsynced);
    assert_eq!(tags.title.as_deref(), Some("ÿ标题"));
    assert_eq!(tags.artist.as_deref(), Some("Artist"));
    assert_eq!(
        resynchronise(&[0xFF, 0x00, 0xE0, 0xFF, 0x00]),
        [0xFF, 0xE0, 0xFF]
    );
}

#[test]
fn v24_frame_flags_are_honoured() {
    // Data length indicator plus grouping byte ahead of the text.
    let mut body = vec![0x07, 0, 0, 0, 5];
    body.extend(text(3, b"Song"));
    let mut grouped = frame(4, b"TIT2", &body);
    grouped[9] = 0x41;
    // A compressed frame is skipped, not misread.
    let mut compressed = frame(4, b"TPE1", &text(3, b"zlib"));
    compressed[9] = 0x09;
    let tags = parse_id3v2(4, 0, [grouped, compressed].concat());
    assert_eq!(tags.title.as_deref(), Some("Song"));
    assert_eq!(tags.artist, None);
}

#[test]
fn tag_parts_are_read_on_their_own() {
    assert_eq!(syncsafe(0, 0, 2, 1), 257);
    assert_eq!(utf16(&[0xFE, 0xFF, 0, 65], false).as_deref(), Some("A"));
    assert_eq!(utf16(&[65, 0], false).as_deref(), Some("A"));
    assert_eq!(utf16(&[0x3D, 0xD8, 0x00, 0xDE], false).as_deref(), Some("😀"));
    assert_eq!(utf16(&[0x3D, 0xD8], false), None);
    assert_eq!(split_terminated(b"a\0b", 1), vec![b"a".to_vec(), b"b".to_vec()]);
    assert_eq!(decode_text_frame(&text(3, b"x")).as_deref(), Some("x"));
    assert_eq!(decode_text_frame(&[]), None);
    assert_eq!(frame_body(3, 0, b"abc"), Some(b"abc".to_vec()));
    assert_eq!(parse_id3v1(&[0; 127]), None);
    let one = TrackTags { title: Some("a".into()), artist: None, album: None };
    let two = TrackTags { title: Some("b".into()), artist: Some("c".into()), album: None };
    let merged = one.merge_missing(two);
    assert_eq!(merged.title.as_deref(), Some("a"));
    assert_eq!(merged.artist.as_deref(), Some("c"));
}

// ---------------------------------------------------------------- sniffing

/// MPEG-1 Layer III, 128 kbps, 44.1 kHz, no padding: 417-byte frames.
const FRAME_HEADER: [u8; 4] = [0xFF, 0xFB, 0x90, 0x64];

fn frames(count: usize) -> Vec<u8> {
    let mut frame = vec![0u8; 417];
    frame[..4].copy_from_slice(&FRAME_HEADER);
    frame.repeat(count)
}

fn id3_tag(body_len: usize) -> Vec<u8> {
    let size = body_len as u32;
    let mut tag = b"ID3\x04\x00\x00".to_vec();
    tag.extend(
        (0..4)
            .rev()
            .map(|shift| ((size >> (shift * 7)) & 0x7F) as u8),
    );
    tag.extend(vec![0u8; body_len]);
    tag
}

#[test]
fn frame_length_matches_the_header() {
    assert_eq!(mp3_frame_len(&FRAME_HEADER), Some(417));
    // Layer II and the reserved bitrate are not playable MP3.
    assert_eq!(mp3_frame_len(&[0xFF, 0xFD, 0x90, 0x64]), None);
    assert_eq!(mp3_frame_len(&[0xFF, 0xFB, 0xF0, 0x64]), None);
}

#[test]
fn mp3_is_recognized_without_an_extension() {
    assert!(is_mp3(&frames(4)));

    // A large ID3v2 tag (embedded artwork) is skipped by its declared size,
    // even past the scan window, and a second tag after it is skipped too.
    let mut tagged = id3_tag(MP3_SCAN_BYTES * 2);
    tagged.extend(id3_tag(128));
    tagged.extend(frames(4));
    assert!(is_mp3(&tagged));
}

#[test]
fn non_mp3_files_are_rejected() {
    let mut png = b"\x89PNG\r\n\x1A\n".to_vec();
    png.extend(vec![0x42; 4096]);
    let mut lone_sync = vec![0u8; 2048];
    lone_sync[100..104].copy_from_slice(&FRAME_HEADER);
    for (name, bytes) in [
        ("png", png),
        ("wav", b"RIFF\x24\x00\x00\x00WAVEfmt ".to_vec()),
        ("m4a", b"\x00\x00\x00\x20ftypM4A \x00\x00\x00\x00".to_vec()),
        ("lone-sync", lone_sync),
        ("id3-only", id3_tag(64)),
    ] {
        assert!(!is_mp3(&bytes), "{name}");
    }
}

#[test]
fn images_are_recognized_by_signature() {
    assert_eq!(
        image_format_of(&[0xFF, 0xD8, 0xFF, 0xE0]),
        Some(ImageFormat::Jpeg)
    );
    assert_eq!(
        image_format_of(b"\x89PNG\r\n\x1A\n"),
        Some(ImageFormat::Png)
    );
    assert_eq!(image_format_of(b"GIF89a"), None);
    assert_eq!(image_format_of(&[]), None);
}

#[test]
fn lyrics_format_comes_from_content() {
    assert_eq!(
        lyrics_format(br#"{"code":200,"lrc":{"lyric":"[00:01.00]hi"}}"#),
        Some(LyricsFormat::Json)
    );
    assert_eq!(
        lyrics_format(b"\xEF\xBB\xBF{\"code\":200}"),
        Some(LyricsFormat::Json)
    );
    assert_eq!(
        lyrics_format("[ti:歌名]\n[00:01.00]第一句".as_bytes()),
        Some(LyricsFormat::Lrc)
    );
    assert_eq!(lyrics_format(b"plain text lyrics"), Some(LyricsFormat::Lrc));
    assert_eq!(lyrics_format(&frames(2)), None);
    assert_eq!(lyrics_format(b"\x89PNG\r\n\x1A\n"), None);
    assert_eq!(lyrics_format(b"text\0with nul"), None);
}

#[test]
fn tag_lengths_and_frames_are_measured() {
    assert_eq!(id3v2_tag_len(&id3_tag(300)[..10]), Some(310));
    assert_eq!(id3v2_tag_len(b"no tag her"), None);
    assert!(contains_mp3_frames(&frames(3)));
    assert!(!contains_mp3_frames(&[]));
    assert_eq!(image_format(b"\x89PNG\r\n\x1A\nrest"), Some(ImageFormat::Png));
    assert_eq!(LyricsFormat::Lrc.as_str(), "lrc");
}
