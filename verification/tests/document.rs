use open_live_writer::document::{
    decode_markdown, disk_bytes, encode_markdown, normalize_newlines, prepare_content,
    FileEncoding, LoadedDocument,
};
use open_live_writer::editing::{line_end, line_starts};
use open_live_writer::names::{
    default_markdown_filename, filename_for_title, hex_value, image_warning, is_image_extension,
    is_image_file_name, is_image_path, local_image_warning, markdown_image_url, percent_decode, percent_decode_bytes,
    percent_encode_path, preview_image_place, preview_image_source,
    typecho_is_primary_publish_target, utf16_offset_from_utf8, utf16_range_from_utf8,
    utf16_range_to_utf8, utf8_offset_from_utf16, PreviewImage,
};
use open_live_writer::text::{char_is_control, char_is_white};

#[test]
fn keeps_the_cursor_after_the_last_character() {
    assert_eq!(line_end(&line_starts("hello"), 0, 5), 5);
    assert_eq!(line_end(&line_starts("hello\nworld"), 1, 11), 11);
}

#[test]
fn normalizes_windows_newlines_and_local_ime_ranges() {
    assert_eq!(normalize_newlines("a\r\nb\rc".into()), "a\nb\nc");
    assert_eq!(utf16_range_to_utf8("中文", &(0..2)), 0..6);
}

#[test]
fn accepts_common_image_files_and_builds_file_urls() {
    let path = "/tmp/封面.png";
    assert!(is_image_path(path));
    assert_eq!(
        markdown_image_url(path),
        "file:///tmp/%E5%B0%81%E9%9D%A2.png"
    );
    assert_eq!(percent_decode("%E5%B0%81%E9%9D%A2"), "封面");
    assert_eq!(percent_decode("a%20b.png"), "a b.png");
    assert!(!is_image_path("/tmp/article.md"));
}

#[test]
fn suggests_markdown_title_as_filename() {
    assert_eq!(
        default_markdown_filename("# Endless Fight: Babel?\n\n正文"),
        "Endless Fight_ Babel_.md"
    );
    assert_eq!(
        default_markdown_filename(""),
        "\u{672a}\u{547d}\u{540d}\u{6587}\u{7ae0}.md"
    );
}

#[test]
fn promotes_the_only_configured_publish_target() {
    assert!(typecho_is_primary_publish_target(false, true));
    assert!(!typecho_is_primary_publish_target(true, false));
    assert!(!typecho_is_primary_publish_target(true, true));
    assert!(!typecho_is_primary_publish_target(false, false));
}

#[test]
fn keeps_encoding_line_ending_and_mark() {
    let encodings = [
        FileEncoding::Utf8,
        FileEncoding::Utf8Bom,
        FileEncoding::Utf16Le,
        FileEncoding::Utf16Be,
    ];
    for encoding in encodings {
        for ending in ["\n", "\r\n", "\r"] {
            let bytes = disk_bytes("一\n𝄞 b\n", ending, encoding).unwrap();
            let document = decode_markdown(&bytes).unwrap();
            assert_eq!(document.content, "一\n𝄞 b\n");
            assert_eq!(document.line_ending, ending);
            assert_eq!(document.encoding, encoding);
            assert_eq!(
                disk_bytes(&document.content, &document.line_ending, document.encoding).unwrap(),
                bytes
            );
        }
    }
}

#[test]
fn encodes_marks_and_units() {
    assert_eq!(
        encode_markdown("a", FileEncoding::Utf8Bom).unwrap(),
        vec![0xEF, 0xBB, 0xBF, 0x61]
    );
    assert_eq!(
        encode_markdown("a𝄞", FileEncoding::Utf16Le).unwrap(),
        vec![0xFF, 0xFE, 0x61, 0x00, 0x34, 0xD8, 0x1E, 0xDD]
    );
    assert_eq!(
        encode_markdown("é", FileEncoding::Utf16Be).unwrap(),
        vec![0xFE, 0xFF, 0x00, 0xE9]
    );
}

#[test]
fn reads_and_writes_gbk() {
    let bytes = encode_markdown("中文", FileEncoding::Gbk).unwrap();
    assert_eq!(bytes, vec![0xD6, 0xD0, 0xCE, 0xC4]);
    let document = decode_markdown(&bytes).unwrap();
    assert_eq!(document.content, "中文");
    assert_eq!(document.encoding, FileEncoding::Gbk);
    assert_eq!(
        encode_markdown("\u{1F600}", FileEncoding::Gbk).unwrap_err(),
        "保存失败：当前内容包含 GBK 无法表示的字符"
    );
}

#[test]
fn says_why_a_file_cannot_be_read() {
    assert_eq!(
        decode_markdown(&[0xFF, 0xFE, 0x61]).unwrap_err(),
        "UTF-16 文件损坏：字节长度不是偶数"
    );
    let error = decode_markdown(&[0xFF, 0xFE, 0x00, 0xD8]).unwrap_err();
    assert_eq!(
        error,
        format!("UTF-16 解码失败：{}", String::from_utf16(&[0xD800]).unwrap_err())
    );
    let error = decode_markdown(&[0xEF, 0xBB, 0xBF, 0xFF]).unwrap_err();
    assert_eq!(
        error,
        format!("UTF-8 解码失败：{}", String::from_utf8(vec![0xFF]).unwrap_err())
    );
}

#[test]
fn prepares_line_endings() {
    assert_eq!(prepare_content("a\rb".into()), ("a\nb".to_owned(), "\r".to_owned()));
    assert_eq!(prepare_content("a".into()), ("a".to_owned(), "\n".to_owned()));
    let document = LoadedDocument::new("a\r\nb\nc".into(), FileEncoding::Utf8);
    assert_eq!(document.line_ending, "\r\n");
    assert_eq!(document.content, "a\nb\nc");
}

#[test]
fn names_of_articles() {
    assert_eq!(filename_for_title(" a/b. . "), "a_b.md");
    assert_eq!(filename_for_title("note.MD"), "note.MD");
    assert_eq!(filename_for_title("..."), "未命名文章.md");
    assert!(is_image_extension(Some("JPEG")));
    assert!(!is_image_extension(Some("tiff")));
    assert!(!is_image_extension(None));
    assert!(!is_image_path("png"));
    assert!(!is_image_path(""));
    assert!(!is_image_path(".png"));
    assert!(!is_image_path("a.png/.."));
    assert!(is_image_path("d/a.png/"));
    assert!(is_image_path("d/a:b.PNG"));
    assert!(is_image_path("d\\a.png"));
    assert!(is_image_path("C:\\d\\a.png"));
    assert!(is_image_path("C:a.png"));
    assert!(!is_image_path("C:\\d.png\\a"));
    assert!(is_image_file_name(Some("a.b.WebP".to_owned())));
    assert!(!is_image_file_name(Some("a.png.md".to_owned())));
    assert!(!is_image_file_name(None));
}

#[test]
fn addresses_go_round() {
    let path = "/a b/中%.png";
    let encoded = percent_encode_path(path);
    assert_eq!(encoded, "/a%20b/%E4%B8%AD%25.png");
    assert_eq!(percent_decode(&encoded), path);
    assert_eq!(percent_decode_bytes("%4x%41"), b"%4xA".to_vec());
    assert_eq!(percent_decode("%FF"), "\u{FFFD}");
    assert_eq!(markdown_image_url("C:\\a"), "file:///C:/a");
    assert_eq!(hex_value(b'f'), Some(15));
    assert_eq!(hex_value(b'G'), None);
}

#[test]
fn finds_images_for_the_preview() {
    assert_eq!(
        preview_image_source("file:///tmp/a%20b", true),
        PreviewImage::File("tmp/a b".into())
    );
    assert_eq!(preview_image_place("file://x", true), PreviewImage::File("x".into()));
    assert_eq!(
        preview_image_place("https://x", true),
        PreviewImage::Url("https://x".into())
    );
    assert_eq!(preview_image_place("a.png", true), PreviewImage::Beside("a.png".into()));
    assert_eq!(preview_image_place("a.png", false), PreviewImage::File("a.png".into()));
}

#[test]
fn warns_of_local_images() {
    assert_eq!(image_warning(0), "");
    assert_eq!(
        local_image_warning("![a](x.png)"),
        "（含 1 处本地/相对图片，发布后可能无法直接显示）"
    );
}

#[test]
fn offsets_go_round() {
    let text = "a中𝄞b";
    assert_eq!(utf16_range_from_utf8(text, 0..text.len()), 0..5);
    for (offset, _) in text.char_indices() {
        assert_eq!(utf8_offset_from_utf16(text, utf16_offset_from_utf8(text, offset)), offset);
    }
    assert_eq!(utf16_offset_from_utf8(text, 2), 2);
    assert_eq!(utf8_offset_from_utf16(text, 3), 8);
    assert_eq!(utf8_offset_from_utf16(text, 99), text.len());
}

#[test]
fn character_classes_agree_with_unicode() {
    for value in 0..=0x10FFFFu32 {
        if let Some(character) = char::from_u32(value) {
            assert_eq!(char_is_white(character), character.is_whitespace());
            assert_eq!(char_is_control(character), character.is_control());
        }
    }
}
