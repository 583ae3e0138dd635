//! The library against the same computations written with std's string
//! methods, on many generated inputs.
use fastfiles::icon::file_icon;
use fastfiles::range::parse_range_header;
use fastfiles::text::white_space;
use fastfiles::tuning::socket_buffer_limit;
use fastfiles::url::{code_from_query, urlencoding_decode};

struct Gen(u64);

impl Gen {
    fn next(&mut self) -> u64 {
        self.0 = self.0.wrapping_mul(6364136223846793005).wrapping_add(1442695040888963407);
        self.0 >> 33
    }
    fn text(&mut self, alphabet: &[&str], max_len: u64) -> String {
        let n = self.next() % (max_len + 1);
        (0..n).map(|_| alphabet[(self.next() as usize) % alphabet.len()]).collect()
    }
}

fn ranges_by_std(range_str: &str, file_size: u64) -> Option<Vec<(u64, u64)>> {
    let prefix = "bytes=";
    if !range_str.starts_with(prefix) {
        return None;
    }
    let mut out = Vec::new();
    for part in range_str[prefix.len()..].split(',') {
        let part = part.trim();
        if part.is_empty() {
            return None;
        }
        if part.starts_with('-') {
            let n: u64 = part[1..].parse().ok()?;
            if n == 0 {
                return None;
            }
            out.push((file_size.saturating_sub(n), file_size.saturating_sub(1)));
        } else if let Some(d) = part.find('-') {
            let start: u64 = part[..d].parse().ok()?;
            let end_str = &part[d + 1..];
            let end: u64 = if end_str.is_empty() { file_size.saturating_sub(1) } else { end_str.parse().ok()? };
            if start > end || start >= file_size {
                return None;
            }
            out.push((start, end.min(file_size.saturating_sub(1))));
        } else {
            return None;
        }
    }
    if out.is_empty() { None } else { Some(out) }
}

#[test]
fn ranges_agree() {
    let alphabet = ["0", "1", "5", "9", "-", "-", ",", " ", "+", "\t", "\u{a0}", "\u{3000}", "x", "\u{2028}"];
    let mut g = Gen(7);
    for i in 0..200000 {
        let body = g.text(&alphabet, 12);
        let h = if i % 10 == 0 { body.clone() } else { format!("bytes={body}") };
        let size = [0u64, 1, 3, 10, 100, 1000, u64::MAX][(g.next() % 7) as usize];
        let ours = parse_range_header(&h, size).map(|r| r.ranges.iter().map(|x| (x.start, x.end)).collect());
        assert_eq!(ours, ranges_by_std(&h, size), "{h:?} {size}");
    }
}

fn decode_by_std(s: &str) -> String {
    let mut result = String::new();
    let mut chars = s.chars();
    while let Some(c) = chars.next() {
        if c == '%' {
            if let (Some(h), Some(l)) = (chars.next(), chars.next()) {
                if let (Some(h), Some(l)) = (h.to_digit(16), l.to_digit(16)) {
                    result.push(char::from_u32(h * 16 + l).unwrap_or(c));
                    continue;
                }
            }
        }
        result.push(c);
    }
    result
}

fn code_by_std(q: &str) -> &str {
    q.split('&')
        .find_map(|pair| {
            let mut parts = pair.split('=');
            if parts.next() == Some("code") { parts.next() } else { None }
        })
        .unwrap_or("")
}

#[test]
fn url_decoding_and_queries_agree() {
    let alphabet = ["%", "%", "a", "F", "4", "0", "g", "é", "Z", "&", "=", "code", "code="];
    let mut g = Gen(11);
    for _ in 0..100000 {
        let s = g.text(&alphabet, 10);
        assert_eq!(urlencoding_decode(&s), decode_by_std(&s), "{s:?}");
        assert_eq!(code_from_query(&s), code_by_std(&s), "{s:?}");
    }
}

fn icon_by_std(file_name: &str) -> &'static str {
    let ext = file_name.rsplit('.').next().unwrap_or("").to_lowercase();
    match ext.as_str() {
        "zip" | "rar" | "7z" | "tar" | "gz" | "bz2" | "xz" => "🗜️",
        "mp4" | "mkv" | "avi" | "mov" | "wmv" | "flv" | "webm" => "🎬",
        "mp3" | "wav" | "flac" | "aac" | "ogg" | "wma" => "🎵",
        "jpg" | "jpeg" | "png" | "gif" | "bmp" | "svg" | "webp" | "ico" => "🖼️",
        "pdf" => "📕",
        "doc" | "docx" => "📝",
        "xls" | "xlsx" | "csv" => "📊",
        "ppt" | "pptx" => "📽️",
        "exe" | "msi" | "apk" | "dmg" => "⚙️",
        "iso" | "img" => "💿",
        "txt" | "md" | "log" | "json" | "xml" | "yaml" | "yml" => "📄",
        "psd" | "ai" => "🎨",
        "ttf" | "otf" | "woff" | "woff2" => "🔤",
        _ => "📦",
    }
}

#[test]
fn icons_agree() {
    let alphabet = [".", "Z", "i", "p", "M", "K", "\u{212A}", "v", "\u{130}", "A", "d", "g", "x", "2", "ı"];
    let mut g = Gen(3);
    for _ in 0..100000 {
        let s = g.text(&alphabet, 6);
        assert_eq!(file_icon(&s), icon_by_std(&s), "{s:?}");
    }
    for w in ["ZIP", "Mp4", "FLAC", "JpEg", "PDF", "DOCX", "CSV", "PPTX", "APK", "ISO", "YAML", "AI", "WOFF2"] {
        let name = format!("f.{w}");
        assert_eq!(file_icon(&name), icon_by_std(&name));
    }
}

#[test]
fn only_kelvin_sign_lowercases_into_ascii() {
    for u in 0x80u32..=0x10FFFF {
        if let Some(c) = char::from_u32(u) {
            let lower: String = c.to_lowercase().collect();
            if lower.is_ascii() {
                assert_eq!(c, '\u{212A}');
            }
        }
    }
}

#[test]
fn white_space_agrees() {
    for u in 0u32..=0x10FFFF {
        if let Some(c) = char::from_u32(u) {
            assert_eq!(white_space(c), c.is_whitespace(), "{u:#x}");
        }
    }
}

#[test]
fn socket_limits_agree() {
    let alphabet = ["1", "2", "0", "9", "8", "8", " ", "\n", "+", "-", "x", "\u{3000}"];
    let mut g = Gen(5);
    for _ in 0..50000 {
        let s = g.text(&alphabet, 24);
        let expected = match s.trim().parse::<usize>() {
            Ok(n) if n >= 8 * 1024 * 1024 => n,
            _ => 16 * 1024 * 1024,
        };
        assert_eq!(socket_buffer_limit(Some(&s)), expected, "{s:?}");
    }
}
