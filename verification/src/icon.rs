//! The emoji shown beside a file on the download page, chosen by extension.
use vstd::prelude::*;
use crate::text::{chars_of, range_equals};

verus! {

/// The index of the last occurrence of `c` in `s`.
pub open spec fn find_last(s: Seq<char>, c: char) -> Option<int>
    decreases s.len(),
{
    if s.len() == 0 {
        None
    } else if s.last() == c {
        Some(s.len() - 1)
    } else {
        find_last(s.drop_last(), c)
    }
}

/// What follows the last `.` of a name, or the whole name when it has none
/// (the first item of `rsplit('.')`).
pub open spec fn extension(name: Seq<char>) -> Seq<char> {
    match find_last(name, '.') {
        None => name,
        Some(k) => name.skip(k + 1),
    }
}

/// Lower case as far as it matters for comparing with an ASCII word: ASCII
/// capitals become small letters, and the Kelvin sign (U+212A) becomes `k`;
/// it is the one character outside ASCII whose lower-case form is ASCII, so
/// every other character stays outside ASCII under `to_lowercase` and can
/// never match an extension in the table.
pub open spec fn fold_char(c: char) -> char {
    if 'A' <= c <= 'Z' {
        ((c as nat) + 32) as char
    } else if c == '\u{212a}' {
        'k'
    } else {
        c
    }
}

pub open spec fn fold(s: Seq<char>) -> Seq<char> {
    s.map_values(|c: char| fold_char(c))
}

/// The icon for an extension that has already been folded to lower case.
pub open spec fn icon_for(e: Seq<char>) -> Seq<char> {
    if e == "zip"@ || e == "rar"@ || e == "7z"@ || e == "tar"@ || e == "gz"@ || e == "bz2"@ || e == "xz"@ {
        "🗜️"@
    } else if e == "mp4"@ || e == "mkv"@ || e == "avi"@ || e == "mov"@ || e == "wmv"@ || e == "flv"@ || e == "webm"@ {
        "🎬"@
    } else if e == "mp3"@ || e == "wav"@ || e == "flac"@ || e == "aac"@ || e == "ogg"@ || e == "wma"@ {
        "🎵"@
    } else if e == "jpg"@ || e == "jpeg"@ || e == "png"@ || e == "gif"@ || e == "bmp"@ || e == "svg"@ || e == "webp"@ || e == "ico"@ {
        "🖼️"@
    } else if e == "pdf"@ {
        "📕"@
    } else if e == "doc"@ || e == "docx"@ {
        "📝"@
    } else if e == "xls"@ || e == "xlsx"@ || e == "csv"@ {
        "📊"@
    } else if e == "ppt"@ || e == "pptx"@ {
        "📽️"@
    } else if e == "exe"@ || e == "msi"@ || e == "apk"@ || e == "dmg"@ {
        "⚙️"@
    } else if e == "iso"@ || e == "img"@ {
        "💿"@
    } else if e == "txt"@ || e == "md"@ || e == "log"@ || e == "json"@ || e == "xml"@ || e == "yaml"@ || e == "yml"@ {
        "📄"@
    } else if e == "psd"@ || e == "ai"@ {
        "🎨"@
    } else if e == "ttf"@ || e == "otf"@ || e == "woff"@ || e == "woff2"@ {
        "🔤"@
    } else {
        "📦"@
    }
}

/// The icon for a file name.
pub open spec fn spec_file_icon(name: Seq<char>) -> Seq<char> {
    icon_for(fold(extension(name)))
}

fn fold_one(c: char) -> (r: char)
    ensures
        r == fold_char(c),
{
    if 'A' <= c && c <= 'Z' {
        ((c as u32 + 32) as u8) as char
    } else if c == '\u{212a}' {
        'k'
    } else {
        c
    }
}

fn is_word(e: &Vec<char>, w: &str) -> (r: bool)
    ensures
        r == (e@ == w@),
{
    let r = range_equals(e, 0, e.len(), w);
    assert(e@.subrange(0, e@.len() as int) =~= e@);
    r
}

/// The folded extension of a file name.
fn folded_extension(name: &str) -> (r: Vec<char>)
    ensures
        r@ == fold(extension(name@)),
{
    let v = chars_of(name);
    let mut k = v.len();
    assert(v@.take(k as int) =~= v@);
    while k > 0 && v[k - 1] != '.'
        invariant
            k <= v@.len(),
            find_last(v@, '.') == find_last(v@.take(k as int), '.'),
        decreases k,
    {
        assert(v@.take(k as int).drop_last() =~= v@.take(k - 1));
        k = k - 1;
    }
    proof {
        if k == 0 {
            assert(v@.take(0) =~= Seq::<char>::empty());
            assert(v@.skip(0) =~= v@);
        } else {
            assert(v@.take(k as int).last() == v@[k - 1]);
        }
    }
    let mut out: Vec<char> = Vec::new();
    let mut i = k;
    while i < v.len()
        invariant
            k <= i <= v@.len(),
            out@ == fold(v@.subrange(k as int, i as int)),
        decreases v@.len() - i,
    {
        out.push(fold_one(v[i]));
        i = i + 1;
        assert(out@ =~= fold(v@.subrange(k as int, i as int)));
    }
    assert(v@.subrange(k as int, v@.len() as int) =~= extension(v@));
    out
}

/// The icon for a file name, by its extension in any letter case.
pub fn file_icon(file_name: &str) -> (r: &'static str)
    ensures
        r@ == spec_file_icon(file_name@),
{
    let e = folded_extension(file_name);
    if is_word(&e, "zip") || is_word(&e, "rar") || is_word(&e, "7z") || is_word(&e, "tar") || is_word(&e, "gz") || is_word(&e, "bz2") || is_word(&e, "xz") {
        "🗜️"
    } else if is_word(&e, "mp4") || is_word(&e, "mkv") || is_word(&e, "avi") || is_word(&e, "mov") || is_word(&e, "wmv") || is_word(&e, "flv") || is_word(&e, "webm") {
        "🎬"
    } else if is_word(&e, "mp3") || is_word(&e, "wav") || is_word(&e, "flac") || is_word(&e, "aac") || is_word(&e, "ogg") || is_word(&e, "wma") {
        "🎵"
    } else if is_word(&e, "jpg") || is_word(&e, "jpeg") || is_word(&e, "png") || is_word(&e, "gif") || is_word(&e, "bmp") || is_word(&e, "svg") || is_word(&e, "webp") || is_word(&e, "ico") {
        "🖼️"
    } else if is_word(&e, "pdf") {
        "📕"
    } else if is_word(&e, "doc") || is_word(&e, "docx") {
        "📝"
    } else if is_word(&e, "xls") || is_word(&e, "xlsx") || is_word(&e, "csv") {
        "📊"
    } else if is_word(&e, "ppt") || is_word(&e, "pptx") {
        "📽️"
    } else if is_word(&e, "exe") || is_word(&e, "msi") || is_word(&e, "apk") || is_word(&e, "dmg") {
        "⚙️"
    } else if is_word(&e, "iso") || is_word(&e, "img") {
        "💿"
    } else if is_word(&e, "txt") || is_word(&e, "md") || is_word(&e, "log") || is_word(&e, "json") || is_word(&e, "xml") || is_word(&e, "yaml") || is_word(&e, "yml") {
        "📄"
    } else if is_word(&e, "psd") || is_word(&e, "ai") {
        "🎨"
    } else if is_word(&e, "ttf") || is_word(&e, "otf") || is_word(&e, "woff") || is_word(&e, "woff2") {
        "🔤"
    } else {
        "📦"
    }
}

/// The fourteen icons of the table, the last one for any other extension.
pub open spec fn is_listed_icon(icon: Seq<char>) -> bool {
    ||| icon == "🗜️"@
    ||| icon == "🎬"@
    ||| icon == "🎵"@
    ||| icon == "🖼️"@
    ||| icon == "📕"@
    ||| icon == "📝"@
    ||| icon == "📊"@
    ||| icon == "📽️"@
    ||| icon == "⚙️"@
    ||| icon == "💿"@
    ||| icon == "📄"@
    ||| icon == "🎨"@
    ||| icon == "🔤"@
    ||| icon == "📦"@
}

/// A name's icon depends only on its extension as lower case sees it: two
/// names whose folded extensions agree get the same icon, and every icon is
/// one of the table's.
pub proof fn law_icon_follows_extension(a: Seq<char>, b: Seq<char>)
    requires
        fold(extension(a)) == fold(extension(b)),
    ensures
        spec_file_icon(a) == spec_file_icon(b),
        is_listed_icon(spec_file_icon(a)),
{
}

proof fn lemma_find_last_past(s: Seq<char>, tail: Seq<char>, c: char)
    requires
        !tail.contains(c),
    ensures
        find_last(s + tail, c) == find_last(s, c),
    decreases tail.len(),
{
    if tail.len() == 0 {
        assert(s + tail =~= s);
    } else {
        let t = s + tail;
        assert(t.last() == tail.last());
        assert(!tail.drop_last().contains(c)) by {
            if tail.drop_last().contains(c) {
                let i = choose|i: int| 0 <= i < tail.drop_last().len() && tail.drop_last()[i] == c;
                assert(tail[i] == c);
            }
        }
        assert(tail[tail.len() - 1] != c);
        assert(t.drop_last() =~= s + tail.drop_last());
        lemma_find_last_past(s, tail.drop_last(), c);
    }
}

/// The extension is what follows the last dot, and letter case does not
/// matter: a name made of any stem, a dot, and a dot-free extension that
/// spells the lower-case word `w` with any of its letters in capitals has
/// `w` as its folded extension.
pub proof fn law_extension_in_any_case(stem: Seq<char>, ext: Seq<char>, w: Seq<char>)
    requires
        !ext.contains('.'),
        ext.len() == w.len(),
        forall|i: int| 0 <= i < w.len() ==> ('a' <= #[trigger] w[i] <= 'z') || ('0' <= w[i] <= '9'),
        forall|i: int|
            0 <= i < w.len() ==> #[trigger] ext[i] == w[i] || ('a' <= w[i] <= 'z' && ext[i] as int
                == w[i] as int - 32),
    ensures
        fold(extension(stem + seq!['.'] + ext)) == w,
{
    let name = stem + seq!['.'] + ext;
    lemma_find_last_past(stem + seq!['.'], ext, '.');
    assert((stem + seq!['.']).last() == '.');
    assert(name =~= (stem + seq!['.']) + ext);
    assert(find_last(name, '.') == Some(stem.len() as int));
    assert(extension(name) =~= ext);
    assert forall|i: int| 0 <= i < w.len() implies fold_char(ext[i]) == w[i] by {
        if ext[i] == w[i] {
        } else {
            assert(('A' <= ext[i] <= 'Z'));
        }
    }
    assert(fold(ext) =~= w);
}

/// Every extension in the icon table gets the icon of its row, whatever its
/// letter case: a name whose extension folds to a listed word shows that
/// row's icon (for instance `jpg` gives the image icon), never the default,
/// and a name whose folded extension is none of them gets the default icon.
pub proof fn law_listed_extension_gets_its_row(name: Seq<char>, w: Seq<char>)
    requires
        fold(extension(name)) == w,
    ensures
        (w == seq!['z', 'i', 'p'] || w == seq!['r', 'a', 'r'] || w == seq!['7', 'z']
            || w == seq!['t', 'a', 'r'] || w == seq!['g', 'z'] || w == seq!['b', 'z', '2']
            || w == seq!['x', 'z']) ==> spec_file_icon(name) == "🗜️"@,
        (w == seq!['m', 'p', '4'] || w == seq!['m', 'k', 'v'] || w == seq!['a', 'v', 'i']
            || w == seq!['m', 'o', 'v'] || w == seq!['w', 'm', 'v'] || w == seq!['f', 'l', 'v']
            || w == seq!['w', 'e', 'b', 'm']) ==> spec_file_icon(name) == "🎬"@,
        (w == seq!['m', 'p', '3'] || w == seq!['w', 'a', 'v'] || w == seq!['f', 'l', 'a', 'c']
            || w == seq!['a', 'a', 'c'] || w == seq!['o', 'g', 'g'] || w == seq!['w', 'm', 'a'])
            ==> spec_file_icon(name) == "🎵"@,
        (w == seq!['j', 'p', 'g'] || w == seq!['j', 'p', 'e', 'g'] || w == seq!['p', 'n', 'g']
            || w == seq!['g', 'i', 'f'] || w == seq!['b', 'm', 'p'] || w == seq!['s', 'v', 'g']
            || w == seq!['w', 'e', 'b', 'p'] || w == seq!['i', 'c', 'o']) ==> spec_file_icon(name)
            == "🖼️"@,
        w == seq!['p', 'd', 'f'] ==> spec_file_icon(name) == "📕"@,
        (w == seq!['d', 'o', 'c'] || w == seq!['d', 'o', 'c', 'x']) ==> spec_file_icon(name)
            == "📝"@,
        (w == seq!['x', 'l', 's'] || w == seq!['x', 'l', 's', 'x'] || w == seq!['c', 's', 'v'])
            ==> spec_file_icon(name) == "📊"@,
        (w == seq!['p', 'p', 't'] || w == seq!['p', 'p', 't', 'x']) ==> spec_file_icon(name)
            == "📽️"@,
        (w == seq!['e', 'x', 'e'] || w == seq!['m', 's', 'i'] || w == seq!['a', 'p', 'k']
            || w == seq!['d', 'm', 'g']) ==> spec_file_icon(name) == "⚙️"@,
        (w == seq!['i', 's', 'o'] || w == seq!['i', 'm', 'g']) ==> spec_file_icon(name)
            == "💿"@,
        (w == seq!['t', 'x', 't'] || w == seq!['m', 'd'] || w == seq!['l', 'o', 'g']
            || w == seq!['j', 's', 'o', 'n'] || w == seq!['x', 'm', 'l'] || w == seq![
            'y', 'a', 'm', 'l'] || w == seq!['y', 'm', 'l']) ==> spec_file_icon(name) == "📄"@,
        (w == seq!['p', 's', 'd'] || w == seq!['a', 'i']) ==> spec_file_icon(name) == "🎨"@,
        (w == seq!['t', 't', 'f'] || w == seq!['o', 't', 'f'] || w == seq!['w', 'o', 'f', 'f']
            || w == seq!['w', 'o', 'f', 'f', '2']) ==> spec_file_icon(name) == "🔤"@,
        (w != seq!['z', 'i', 'p'] && w != seq!['r', 'a', 'r'] && w != seq!['7', 'z'] &&
            w != seq!['t', 'a', 'r'] && w != seq!['g', 'z'] && w != seq!['b', 'z', '2'] &&
            w != seq!['x', 'z'] && w != seq!['m', 'p', '4'] && w != seq!['m', 'k', 'v'] &&
            w != seq!['a', 'v', 'i'] && w != seq!['m', 'o', 'v'] && w != seq!['w', 'm', 'v'] &&
            w != seq!['f', 'l', 'v'] && w != seq!['w', 'e', 'b', 'm'] &&
            w != seq!['m', 'p', '3'] && w != seq!['w', 'a', 'v'] &&
            w != seq!['f', 'l', 'a', 'c'] && w != seq!['a', 'a', 'c'] &&
            w != seq!['o', 'g', 'g'] && w != seq!['w', 'm', 'a'] && w != seq!['j', 'p', 'g'] &&
            w != seq!['j', 'p', 'e', 'g'] && w != seq!['p', 'n', 'g'] &&
            w != seq!['g', 'i', 'f'] && w != seq!['b', 'm', 'p'] && w != seq!['s', 'v', 'g'] &&
            w != seq!['w', 'e', 'b', 'p'] && w != seq!['i', 'c', 'o'] &&
            w != seq!['p', 'd', 'f'] && w != seq!['d', 'o', 'c'] &&
            w != seq!['d', 'o', 'c', 'x'] && w != seq!['x', 'l', 's'] &&
            w != seq!['x', 'l', 's', 'x'] && w != seq!['c', 's', 'v'] &&
            w != seq!['p', 'p', 't'] && w != seq!['p', 'p', 't', 'x'] &&
            w != seq!['e', 'x', 'e'] && w != seq!['m', 's', 'i'] && w != seq!['a', 'p', 'k'] &&
            w != seq!['d', 'm', 'g'] && w != seq!['i', 's', 'o'] && w != seq!['i', 'm', 'g'] &&
            w != seq!['t', 'x', 't'] && w != seq!['m', 'd'] && w != seq!['l', 'o', 'g'] &&
            w != seq!['j', 's', 'o', 'n'] && w != seq!['x', 'm', 'l'] &&
            w != seq!['y', 'a', 'm', 'l'] && w != seq!['y', 'm', 'l'] &&
            w != seq!['p', 's', 'd'] && w != seq!['a', 'i'] && w != seq!['t', 't', 'f'] &&
            w != seq!['o', 't', 'f'] && w != seq!['w', 'o', 'f', 'f'] &&
            w != seq!['w', 'o', 'f', 'f', '2']) ==> spec_file_icon(name) == "📦"@,
{
    reveal_strlit("zip");
    assert("zip"@ =~= seq!['z', 'i', 'p']);
    reveal_strlit("rar");
    assert("rar"@ =~= seq!['r', 'a', 'r']);
    reveal_strlit("7z");
    assert("7z"@ =~= seq!['7', 'z']);
    reveal_strlit("tar");
    assert("tar"@ =~= seq!['t', 'a', 'r']);
    reveal_strlit("gz");
    assert("gz"@ =~= seq!['g', 'z']);
    reveal_strlit("bz2");
    assert("bz2"@ =~= seq!['b', 'z', '2']);
    reveal_strlit("xz");
    assert("xz"@ =~= seq!['x', 'z']);
    reveal_strlit("mp4");
    assert("mp4"@ =~= seq!['m', 'p', '4']);
    reveal_strlit("mkv");
    assert("mkv"@ =~= seq!['m', 'k', 'v']);
    reveal_strlit("avi");
    assert("avi"@ =~= seq!['a', 'v', 'i']);
    reveal_strlit("mov");
    assert("mov"@ =~= seq!['m', 'o', 'v']);
    reveal_strlit("wmv");
    assert("wmv"@ =~= seq!['w', 'm', 'v']);
    reveal_strlit("flv");
    assert("flv"@ =~= seq!['f', 'l', 'v']);
    reveal_strlit("webm");
    assert("webm"@ =~= seq!['w', 'e', 'b', 'm']);
    reveal_strlit("mp3");
    assert("mp3"@ =~= seq!['m', 'p', '3']);
    reveal_strlit("wav");
    assert("wav"@ =~= seq!['w', 'a', 'v']);
    reveal_strlit("flac");
    assert("flac"@ =~= seq!['f', 'l', 'a', 'c']);
    reveal_strlit("aac");
    assert("aac"@ =~= seq!['a', 'a', 'c']);
    reveal_strlit("ogg");
    assert("ogg"@ =~= seq!['o', 'g', 'g']);
    reveal_strlit("wma");
    assert("wma"@ =~= seq!['w', 'm', 'a']);
    reveal_strlit("jpg");
    assert("jpg"@ =~= seq!['j', 'p', 'g']);
    reveal_strlit("jpeg");
    assert("jpeg"@ =~= seq!['j', 'p', 'e', 'g']);
    reveal_strlit("png");
    assert("png"@ =~= seq!['p', 'n', 'g']);
    reveal_strlit("gif");
    assert("gif"@ =~= seq!['g', 'i', 'f']);
    reveal_strlit("bmp");
    assert("bmp"@ =~= seq!['b', 'm', 'p']);
    reveal_strlit("svg");
    assert("svg"@ =~= seq!['s', 'v', 'g']);
    reveal_strlit("webp");
    assert("webp"@ =~= seq!['w', 'e', 'b', 'p']);
    reveal_strlit("ico");
    assert("ico"@ =~= seq!['i', 'c', 'o']);
    reveal_strlit("pdf");
    assert("pdf"@ =~= seq!['p', 'd', 'f']);
    reveal_strlit("doc");
    assert("doc"@ =~= seq!['d', 'o', 'c']);
    reveal_strlit("docx");
    assert("docx"@ =~= seq!['d', 'o', 'c', 'x']);
    reveal_strlit("xls");
    assert("xls"@ =~= seq!['x', 'l', 's']);
    reveal_strlit("xlsx");
    assert("xlsx"@ =~= seq!['x', 'l', 's', 'x']);
    reveal_strlit("csv");
    assert("csv"@ =~= seq!['c', 's', 'v']);
    reveal_strlit("ppt");
    assert("ppt"@ =~= seq!['p', 'p', 't']);
    reveal_strlit("pptx");
    assert("pptx"@ =~= seq!['p', 'p', 't', 'x']);
    reveal_strlit("exe");
    assert("exe"@ =~= seq!['e', 'x', 'e']);
    reveal_strlit("msi");
    assert("msi"@ =~= seq!['m', 's', 'i']);
    reveal_strlit("apk");
    assert("apk"@ =~= seq!['a', 'p', 'k']);
    reveal_strlit("dmg");
    assert("dmg"@ =~= seq!['d', 'm', 'g']);
    reveal_strlit("iso");
    assert("iso"@ =~= seq!['i', 's', 'o']);
    reveal_strlit("img");
    assert("img"@ =~= seq!['i', 'm', 'g']);
    reveal_strlit("txt");
    assert("txt"@ =~= seq!['t', 'x', 't']);
    reveal_strlit("md");
    assert("md"@ =~= seq!['m', 'd']);
    reveal_strlit("log");
    assert("log"@ =~= seq!['l', 'o', 'g']);
    reveal_strlit("json");
    assert("json"@ =~= seq!['j', 's', 'o', 'n']);
    reveal_strlit("xml");
    assert("xml"@ =~= seq!['x', 'm', 'l']);
    reveal_strlit("yaml");
    assert("yaml"@ =~= seq!['y', 'a', 'm', 'l']);
    reveal_strlit("yml");
    assert("yml"@ =~= seq!['y', 'm', 'l']);
    reveal_strlit("psd");
    assert("psd"@ =~= seq!['p', 's', 'd']);
    reveal_strlit("ai");
    assert("ai"@ =~= seq!['a', 'i']);
    reveal_strlit("ttf");
    assert("ttf"@ =~= seq!['t', 't', 'f']);
    reveal_strlit("otf");
    assert("otf"@ =~= seq!['o', 't', 'f']);
    reveal_strlit("woff");
    assert("woff"@ =~= seq!['w', 'o', 'f', 'f']);
    reveal_strlit("woff2");
    assert("woff2"@ =~= seq!['w', 'o', 'f', 'f', '2']);
}

} // verus!
