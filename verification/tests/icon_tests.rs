use fastfiles::icon::file_icon;

#[test]
fn icons_by_extension() {
    assert_eq!(file_icon("a.zip"), "🗜️");
    assert_eq!(file_icon("backup.TAR.GZ"), "🗜️");
    assert_eq!(file_icon("film.Mkv"), "🎬");
    assert_eq!(file_icon("song.flac"), "🎵");
    assert_eq!(file_icon("photo.JPEG"), "🖼️");
    assert_eq!(file_icon("book.pdf"), "📕");
    assert_eq!(file_icon("letter.docx"), "📝");
    assert_eq!(file_icon("sheet.csv"), "📊");
    assert_eq!(file_icon("talk.pptx"), "📽️");
    assert_eq!(file_icon("setup.exe"), "⚙️");
    assert_eq!(file_icon("disk.iso"), "💿");
    assert_eq!(file_icon("notes.md"), "📄");
    assert_eq!(file_icon("art.psd"), "🎨");
    assert_eq!(file_icon("font.woff2"), "🔤");
}

#[test]
fn unknown_or_missing_extension() {
    assert_eq!(file_icon("README"), "📦");
    assert_eq!(file_icon("zip"), "🗜️");
    assert_eq!(file_icon("archive."), "📦");
    assert_eq!(file_icon(""), "📦");
    assert_eq!(file_icon("x.zipp"), "📦");
    assert_eq!(file_icon("x.zïp"), "📦");
}

#[test]
fn kelvin_sign_lowercases_to_k() {
    assert_eq!("m\u{212A}v".to_lowercase(), "mkv");
    assert_eq!(file_icon("film.m\u{212A}v"), "🎬");
    assert_eq!(file_icon("app.ap\u{212A}"), "⚙️");
}

#[test]
fn same_lowercased_extension_same_icon() {
    for (a, b) in [("x.ZIP", "y.zip"), ("a.b.Mp3", "c.mp3"), ("m.\u{212A}", "n.k"), ("none", "NONE")] {
        assert_eq!(file_icon(a), file_icon(b));
    }
}
