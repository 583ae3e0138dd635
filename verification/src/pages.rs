//! The HTML pages of the download site: the code entry page, the download
//! page of one file, and the page for an unknown code.
use vstd::prelude::*;
use vstd::string::*;
use crate::icon::{file_icon, spec_file_icon};
use crate::size_format::{format_file_size, spec_format_file_size};
use crate::text::push_str;

verus! {

/// Opening of the error notice on the code entry page.
pub const ERROR_OPEN: &'static str = r#"<div class="error-msg" style="color: #e74c3c; margin-bottom: 16px; font-size: 14px;">"#;

/// Closing of the error notice on the code entry page.
pub const ERROR_CLOSE: &'static str = r#"</div>"#;

/// The code entry page up to the place of the error notice.
pub const ENTRY_HEAD: &'static str = r#"<!DOCTYPE html>
<html lang="zh-CN">
<head>
    <meta charset="UTF-8">
    <meta name="viewport" content="width=device-width, initial-scale=1.0">
    <title>FastFiles 文件分享</title>
    <style>
        * { margin: 0; padding: 0; box-sizing: border-box; }
        body {
            font-family: -apple-system, BlinkMacSystemFont, "Segoe UI", Roboto, "Helvetica Neue", Arial, "Microsoft YaHei", sans-serif;
            background: linear-gradient(135deg, #667eea 0%, #764ba2 100%);
            display: flex;
            justify-content: center;
            align-items: center;
            min-height: 100vh;
            color: #333;
        }
        .container {
            background: #ffffff;
            border-radius: 20px;
            box-shadow: 0 20px 60px rgba(0, 0, 0, 0.15);
            padding: 48px 44px;
            max-width: 420px;
            width: 92%;
            text-align: center;
        }
        .logo {
            font-size: 48px;
            margin-bottom: 16px;
        }
        h1 {
            font-size: 24px;
            font-weight: 600;
            margin-bottom: 8px;
            color: #1a1a2e;
        }
        .subtitle {
            font-size: 14px;
            color: #888;
            margin-bottom: 32px;
        }
        .input-group {
            display: flex;
            justify-content: center;
            gap: 8px;
            margin-bottom: 24px;
        }
        .code-input {
            width: 52px;
            height: 56px;
            text-align: center;
            font-size: 24px;
            font-weight: 600;
            text-transform: uppercase;
            border: 2px solid #e0e0e0;
            border-radius: 12px;
            outline: none;
            transition: border-color 0.2s, box-shadow 0.2s;
        }
        .code-input:focus {
            border-color: #667eea;
            box-shadow: 0 0 0 3px rgba(102, 126, 234, 0.2);
        }
        .submit-btn {
            background: linear-gradient(135deg, #667eea 0%, #764ba2 100%);
            color: #ffffff;
            border: none;
            padding: 14px 48px;
            border-radius: 10px;
            font-size: 16px;
            font-weight: 600;
            cursor: pointer;
            transition: transform 0.2s ease, box-shadow 0.2s ease;
        }
        .submit-btn:hover {
            transform: translateY(-2px);
            box-shadow: 0 8px 25px rgba(102, 126, 234, 0.4);
        }
        .footer {
            margin-top: 32px;
            font-size: 12px;
            color: #ccc;
        }
    </style>
</head>
<body>
    <div class="container">
        <div class="logo">📁</div>
        <h1>FastFiles</h1>
        <div class="subtitle">请输入4位验证码获取文件</div>
        "#;

/// The code entry page after the place of the error notice.
pub const ENTRY_TAIL: &'static str = r#"
        <form action="/fsf/verify" method="GET" onsubmit="return handleSubmit(event)">
            <div class="input-group">
                <input type="text" class="code-input" maxlength="1" data-index="0" autocomplete="off">
                <input type="text" class="code-input" maxlength="1" data-index="1" autocomplete="off">
                <input type="text" class="code-input" maxlength="1" data-index="2" autocomplete="off">
                <input type="text" class="code-input" maxlength="1" data-index="3" autocomplete="off">
            </div>
            <input type="hidden" name="code" id="code">
            <button type="submit" class="submit-btn">获取文件</button>
        </form>
        <div class="footer">由 <strong>FastFiles</strong> 提供 · 局域网极速传输</div>
    </div>
    <script>
        const inputs = document.querySelectorAll('.code-input');
        inputs.forEach((input, idx) => {
            input.addEventListener('input', (e) => {
                const value = e.target.value.toUpperCase();
                e.target.value = value;
                if (value && idx < 3) {
                    inputs[idx + 1].focus();
                }
            });
            input.addEventListener('keydown', (e) => {
                if (e.key === 'Backspace' && !e.target.value && idx > 0) {
                    inputs[idx - 1].focus();
                }
            });
            input.addEventListener('paste', (e) => {
                e.preventDefault();
                const pasted = (e.clipboardData || window.clipboardData).getData('text').toUpperCase().replace(/[^A-Z0-9]/g, '').slice(0, 4);
                pasted.split('').forEach((char, i) => {
                    if (inputs[i]) inputs[i].value = char;
                });
                if (pasted.length > 0) inputs[Math.min(pasted.length, 3)].focus();
            });
        });
        function handleSubmit(e) {
            const code = Array.from(inputs).map(i => i.value.toUpperCase()).join('');
            if (code.length !== 4) {
                e.preventDefault();
                alert('请输入4位验证码');
                return false;
            }
            document.getElementById('code').value = code;
            return true;
        }
        inputs[0].focus();
    </script>
</body>
</html>"#;

/// The download page up to the file's icon.
pub const DOWNLOAD_HEAD: &'static str = r#"<!DOCTYPE html>
<html lang="zh-CN">
<head>
    <meta charset="UTF-8">
    <meta name="viewport" content="width=device-width, initial-scale=1.0">
    <title>文件下载 - FastFiles</title>
    <style>
        * { margin: 0; padding: 0; box-sizing: border-box; }
        body {
            font-family: -apple-system, BlinkMacSystemFont, "Segoe UI", Roboto, "Helvetica Neue", Arial, "Microsoft YaHei", sans-serif;
            background: linear-gradient(135deg, #667eea 0%, #764ba2 100%);
            display: flex;
            justify-content: center;
            align-items: center;
            min-height: 100vh;
            color: #333;
        }
        .container {
            background: #ffffff;
            border-radius: 20px;
            box-shadow: 0 20px 60px rgba(0, 0, 0, 0.15);
            padding: 48px 44px;
            max-width: 500px;
            width: 92%;
            text-align: center;
        }
        .file-icon {
            font-size: 56px;
            margin-bottom: 20px;
            line-height: 1;
        }
        h2 {
            font-size: 22px;
            font-weight: 600;
            margin-bottom: 6px;
            word-break: break-all;
            color: #1a1a2e;
            line-height: 1.4;
        }
        .file-meta {
            font-size: 14px;
            color: #888;
            margin-bottom: 28px;
        }
        .download-btn {
            display: inline-block;
            background: linear-gradient(135deg, #667eea 0%, #764ba2 100%);
            color: #ffffff;
            text-decoration: none;
            padding: 15px 52px;
            border-radius: 10px;
            font-size: 17px;
            font-weight: 600;
            transition: transform 0.2s ease, box-shadow 0.2s ease;
            cursor: pointer;
            border: none;
            letter-spacing: 0.5px;
        }
        .download-btn:hover {
            transform: translateY(-2px);
            box-shadow: 0 8px 25px rgba(102, 126, 234, 0.4);
        }
        .features {
            margin-top: 32px;
            padding: 20px 24px;
            background: #f8f9ff;
            border-radius: 12px;
            font-size: 13px;
            color: #666;
            text-align: left;
            line-height: 1.8;
        }
        .features .title {
            font-weight: 600;
            color: #444;
            margin-bottom: 6px;
            font-size: 14px;
        }
        .features span.tag {
            display: inline-block;
            background: #e8ecff;
            color: #5a67d8;
            padding: 2px 8px;
            border-radius: 4px;
            font-size: 12px;
            font-weight: 500;
            margin-right: 4px;
        }
        .cli-box {
            margin-top: 16px;
            padding: 12px 16px;
            background: #1a1a2e;
            border-radius: 8px;
            color: #a0ffa0;
            font-family: "Cascadia Code", "Fira Code", "Consolas", monospace;
            font-size: 12px;
            text-align: left;
            overflow-x: auto;
            white-space: pre-wrap;
            word-break: break-all;
            line-height: 1.6;
        }
        .footer {
            margin-top: 28px;
            font-size: 12px;
            color: #ccc;
        }
    </style>
</head>
<body>
    <div class="container">
        "#;

/// Opens the icon of the download page.
pub const ICON_OPEN: &'static str = r#"<div class="file-icon">"#;

/// Closes a `div`.
pub const DIV_CLOSE: &'static str = r#"</div>"#;

/// Between the icon and the file name.
pub const DOWNLOAD_GAP_NAME: &'static str = r#"
        "#;

/// Opens the file name heading.
pub const H2_OPEN: &'static str = r#"<h2>"#;

/// Closes the file name heading.
pub const H2_CLOSE: &'static str = r#"</h2>"#;

/// Between the file name and its size label.
pub const DOWNLOAD_GAP_SIZE: &'static str = r#"
        <div class="file-meta">"#;

/// The label before the file size.
pub const SIZE_LABEL: &'static str = r#"文件大小："#;

/// Between the size and the download link's target.
pub const DOWNLOAD_GAP_LINK: &'static str = r#"</div>
        <a class="download-btn" "#;

/// The start of the download link's target, which the code completes.
pub const LINK_TARGET: &'static str = r#"href="/api/fsf/download/"#;

/// Closes an attribute value.
pub const QUOTE: &'static str = r#"""#;

/// After the download link, up to the API link in the script.
pub const DOWNLOAD_GAP_SCRIPT: &'static str = r#" download>⬇ 下载文件</a>
        <div class="features">
            <div class="title">💡 下载提示</div>
            <span class="tag">断点续传</span> <span class="tag">多线程加速</span> <span class="tag">Range 支持</span>
            <div style="margin-top: 8px;">支持使用下载工具获得更快速度：</div>
        </div>
        <div class="cli-box"># aria2 多线程下载（16 线程）
aria2c -x 16 -s 16 "{download_url}"

# curl 断点续传
curl -C - -O "{api_url}"

# wget 继续下载
wget -c "{api_url}"</div>
        <div class="footer">由 <strong>FastFiles</strong> 提供 · 局域网极速传输</div>
    </div>
    <script>
        (function() {
            var apiUrl = location.origin + '/api/fsf/download/"#;

/// Between the API link and the verify link in the script.
pub const DOWNLOAD_GAP_VERIFY: &'static str = r#"';
            var downloadUrl = location.origin + "#;

/// The start of the verify link in the script, which the code completes.
pub const VERIFY_TARGET: &'static str = r#"'/fsf/verify?code="#;

/// Closes a script string.
pub const APOSTROPHE: &'static str = r#"'"#;

/// The rest of the download page.
pub const DOWNLOAD_TAIL: &'static str = r#";
            document.querySelectorAll('.cli-box').forEach(function(el) {
                el.textContent = el.textContent.replace('{{download_url}}', downloadUrl).replace('{{api_url}}', apiUrl);
            });
        })();
    </script>
</body>
</html>"#;

/// The page for a code that no shared file has.
pub const NOT_FOUND_PAGE: &'static str = r#"<!DOCTYPE html>
<html lang="zh-CN">
<head>
    <meta charset="UTF-8">
    <meta name="viewport" content="width=device-width, initial-scale=1.0">
    <title>404 - 文件未找到</title>
    <style>
        * { margin: 0; padding: 0; box-sizing: border-box; }
        body {
            font-family: -apple-system, BlinkMacSystemFont, "Segoe UI", Roboto, "Helvetica Neue", Arial, "Microsoft YaHei", sans-serif;
            background: linear-gradient(135deg, #667eea 0%, #764ba2 100%);
            display: flex;
            justify-content: center;
            align-items: center;
            min-height: 100vh;
            color: #333;
        }
        .container {
            background: #ffffff;
            border-radius: 20px;
            box-shadow: 0 20px 60px rgba(0, 0, 0, 0.15);
            padding: 48px 40px;
            max-width: 480px;
            width: 90%;
            text-align: center;
        }
        h1 {
            font-size: 84px;
            font-weight: 800;
            background: linear-gradient(135deg, #667eea 0%, #764ba2 100%);
            -webkit-background-clip: text;
            -webkit-text-fill-color: transparent;
            background-clip: text;
            margin-bottom: 16px;
        }
        h2 {
            font-size: 20px;
            font-weight: 600;
            margin-bottom: 12px;
            color: #1a1a2e;
        }
        p {
            font-size: 14px;
            color: #888;
            line-height: 1.8;
        }
        .back-link {
            display: inline-block;
            margin-top: 24px;
            color: #667eea;
            text-decoration: none;
            font-weight: 500;
        }
    </style>
</head>
<body>
    <div class="container">
        <h1>404</h1>
        <h2>验证码无效</h2>
        <p>该验证码不存在或文件已被分享者删除。<br>请检查验证码是否正确，或联系分享者获取新的验证码。</p>
        <a class="back-link" href="/fsf">← 返回重新输入</a>
    </div>
</body>
</html>"#;

/// The error notice of the entry page, if there is one.
pub open spec fn error_block(error: Option<Seq<char>>) -> Seq<char> {
    match error {
        Some(msg) => ERROR_OPEN@ + msg + ERROR_CLOSE@,
        None => seq![],
    }
}

/// The code entry page, with an error notice when `error` holds one.
pub open spec fn spec_entry_page(error: Option<Seq<char>>) -> Seq<char> {
    ENTRY_HEAD@ + error_block(error) + ENTRY_TAIL@
}

/// The download page of a file: its icon, name and size, and links that
/// carry its code (all inserted as they are).
pub open spec fn spec_download_page(name: Seq<char>, size: u64, code: Seq<char>) -> Seq<char> {
    DOWNLOAD_HEAD@ + ICON_OPEN@ + spec_file_icon(name) + DIV_CLOSE@ + DOWNLOAD_GAP_NAME@
        + H2_OPEN@ + name + H2_CLOSE@ + DOWNLOAD_GAP_SIZE@ + SIZE_LABEL@ + spec_format_file_size(
        size,
    ) + DOWNLOAD_GAP_LINK@ + LINK_TARGET@ + code + QUOTE@ + DOWNLOAD_GAP_SCRIPT@ + code
        + DOWNLOAD_GAP_VERIFY@ + VERIFY_TARGET@ + code + APOSTROPHE@ + DOWNLOAD_TAIL@
}

pub open spec fn opt_view(error: Option<&str>) -> Option<Seq<char>> {
    match error {
        Some(m) => Some(m@),
        None => None,
    }
}

/// The code entry page (the message is inserted as it is).
pub fn render_fsf_entry_page(error: Option<&str>) -> (r: String)
    ensures
        r@ == spec_entry_page(opt_view(error)),
{
    let mut s = String::new();
    push_str(&mut s, ENTRY_HEAD);
    match error {
        Some(msg) => {
            push_str(&mut s, ERROR_OPEN);
            push_str(&mut s, msg);
            push_str(&mut s, ERROR_CLOSE);
        },
        None => {},
    }
    push_str(&mut s, ENTRY_TAIL);
    assert(s@ =~= spec_entry_page(opt_view(error)));
    s
}

/// The download page of one shared file.
pub fn render_download_page(file_name: &str, file_size: u64, code: &str) -> (r: String)
    ensures
        r@ == spec_download_page(file_name@, file_size, code@),
{
    let size_str = format_file_size(file_size);
    let icon = file_icon(file_name);
    let mut s = String::new();
    push_str(&mut s, DOWNLOAD_HEAD);
    push_str(&mut s, ICON_OPEN);
    push_str(&mut s, icon);
    push_str(&mut s, DIV_CLOSE);
    push_str(&mut s, DOWNLOAD_GAP_NAME);
    push_str(&mut s, H2_OPEN);
    push_str(&mut s, file_name);
    push_str(&mut s, H2_CLOSE);
    push_str(&mut s, DOWNLOAD_GAP_SIZE);
    push_str(&mut s, SIZE_LABEL);
    push_str(&mut s, size_str.as_str());
    push_str(&mut s, DOWNLOAD_GAP_LINK);
    push_str(&mut s, LINK_TARGET);
    push_str(&mut s, code);
    push_str(&mut s, QUOTE);
    push_str(&mut s, DOWNLOAD_GAP_SCRIPT);
    push_str(&mut s, code);
    push_str(&mut s, DOWNLOAD_GAP_VERIFY);
    push_str(&mut s, VERIFY_TARGET);
    push_str(&mut s, code);
    push_str(&mut s, APOSTROPHE);
    push_str(&mut s, DOWNLOAD_TAIL);
    assert(s@ =~= spec_download_page(file_name@, file_size, code@));
    s
}

/// The page for a code that no shared file has.
pub fn render_404_page() -> (r: String)
    ensures
        r@ == NOT_FOUND_PAGE@,
{
    String::from_str(NOT_FOUND_PAGE)
}

/// `s` occurs somewhere in `t`.
pub open spec fn occurs_in(s: Seq<char>, t: Seq<char>) -> bool {
    exists|i: int| 0 <= i && i + s.len() <= t.len() && #[trigger] t.subrange(i, i + s.len()) == s
}

proof fn lemma_occurs(p: Seq<char>, s: Seq<char>, q: Seq<char>)
    ensures
        occurs_in(s, p + s + q),
{
    let t = p + s + q;
    assert(t.subrange(p.len() as int, p.len() + s.len() as int) =~= s);
}

proof fn lemma_page_icon(name: Seq<char>, size: u64, code: Seq<char>)
    ensures
        occurs_in(ICON_OPEN@ + spec_file_icon(name) + DIV_CLOSE@, spec_download_page(name, size, code)),
{
    let s = ICON_OPEN@ + spec_file_icon(name) + DIV_CLOSE@;
    let q = DOWNLOAD_GAP_NAME@ + H2_OPEN@ + name + H2_CLOSE@ + DOWNLOAD_GAP_SIZE@ + SIZE_LABEL@
        + spec_format_file_size(size) + DOWNLOAD_GAP_LINK@ + LINK_TARGET@ + code + QUOTE@
        + DOWNLOAD_GAP_SCRIPT@ + code + DOWNLOAD_GAP_VERIFY@ + VERIFY_TARGET@ + code + APOSTROPHE@
        + DOWNLOAD_TAIL@;
    assert(spec_download_page(name, size, code) =~= DOWNLOAD_HEAD@ + s + q);
    lemma_occurs(DOWNLOAD_HEAD@, s, q);
}

proof fn lemma_page_name(name: Seq<char>, size: u64, code: Seq<char>)
    ensures
        occurs_in(H2_OPEN@ + name + H2_CLOSE@, spec_download_page(name, size, code)),
{
    let p = DOWNLOAD_HEAD@ + ICON_OPEN@ + spec_file_icon(name) + DIV_CLOSE@ + DOWNLOAD_GAP_NAME@;
    let s = H2_OPEN@ + name + H2_CLOSE@;
    let q = DOWNLOAD_GAP_SIZE@ + SIZE_LABEL@ + spec_format_file_size(size) + DOWNLOAD_GAP_LINK@
        + LINK_TARGET@ + code + QUOTE@ + DOWNLOAD_GAP_SCRIPT@ + code + DOWNLOAD_GAP_VERIFY@
        + VERIFY_TARGET@ + code + APOSTROPHE@ + DOWNLOAD_TAIL@;
    assert(spec_download_page(name, size, code) =~= p + s + q);
    lemma_occurs(p, s, q);
}

proof fn lemma_page_size(name: Seq<char>, size: u64, code: Seq<char>)
    ensures
        occurs_in(SIZE_LABEL@ + spec_format_file_size(size), spec_download_page(name, size, code)),
{
    let p = DOWNLOAD_HEAD@ + ICON_OPEN@ + spec_file_icon(name) + DIV_CLOSE@ + DOWNLOAD_GAP_NAME@
        + H2_OPEN@ + name + H2_CLOSE@ + DOWNLOAD_GAP_SIZE@;
    let s = SIZE_LABEL@ + spec_format_file_size(size);
    let q = DOWNLOAD_GAP_LINK@ + LINK_TARGET@ + code + QUOTE@ + DOWNLOAD_GAP_SCRIPT@ + code
        + DOWNLOAD_GAP_VERIFY@ + VERIFY_TARGET@ + code + APOSTROPHE@ + DOWNLOAD_TAIL@;
    assert(spec_download_page(name, size, code) =~= p + s + q);
    lemma_occurs(p, s, q);
}

proof fn lemma_page_link(name: Seq<char>, size: u64, code: Seq<char>)
    ensures
        occurs_in(LINK_TARGET@ + code + QUOTE@, spec_download_page(name, size, code)),
{
    let p = DOWNLOAD_HEAD@ + ICON_OPEN@ + spec_file_icon(name) + DIV_CLOSE@ + DOWNLOAD_GAP_NAME@
        + H2_OPEN@ + name + H2_CLOSE@ + DOWNLOAD_GAP_SIZE@ + SIZE_LABEL@ + spec_format_file_size(
        size,
    ) + DOWNLOAD_GAP_LINK@;
    let s = LINK_TARGET@ + code + QUOTE@;
    let q = DOWNLOAD_GAP_SCRIPT@ + code + DOWNLOAD_GAP_VERIFY@ + VERIFY_TARGET@ + code
        + APOSTROPHE@ + DOWNLOAD_TAIL@;
    assert(spec_download_page(name, size, code) =~= p + s + q);
    lemma_occurs(p, s, q);
}

proof fn lemma_page_verify(name: Seq<char>, size: u64, code: Seq<char>)
    ensures
        occurs_in(VERIFY_TARGET@ + code + APOSTROPHE@, spec_download_page(name, size, code)),
{
    let p = DOWNLOAD_HEAD@ + ICON_OPEN@ + spec_file_icon(name) + DIV_CLOSE@ + DOWNLOAD_GAP_NAME@
        + H2_OPEN@ + name + H2_CLOSE@ + DOWNLOAD_GAP_SIZE@ + SIZE_LABEL@ + spec_format_file_size(
        size,
    ) + DOWNLOAD_GAP_LINK@ + LINK_TARGET@ + code + QUOTE@ + DOWNLOAD_GAP_SCRIPT@ + code
        + DOWNLOAD_GAP_VERIFY@;
    let s = VERIFY_TARGET@ + code + APOSTROPHE@;
    let q = DOWNLOAD_TAIL@;
    assert(spec_download_page(name, size, code) =~= p + s + q);
    lemma_occurs(p, s, q);
}

/// The download page shows the file's icon, its name as the heading and its
/// size after the size label, and both the download link and the verify
/// link carry its code.
pub proof fn law_download_page_shows_file(name: Seq<char>, size: u64, code: Seq<char>)
    ensures
        occurs_in(
            "<div class=\"file-icon\">"@ + spec_file_icon(name) + "</div>"@,
            spec_download_page(name, size, code),
        ),
        occurs_in("<h2>"@ + name + "</h2>"@, spec_download_page(name, size, code)),
        occurs_in("文件大小："@ + spec_format_file_size(size), spec_download_page(name, size, code)),
        occurs_in(
            "href=\"/api/fsf/download/"@ + code + "\""@,
            spec_download_page(name, size, code),
        ),
        occurs_in("'/fsf/verify?code="@ + code + "'"@, spec_download_page(name, size, code)),
{
    lemma_page_icon(name, size, code);
    lemma_page_name(name, size, code);
    lemma_page_size(name, size, code);
    lemma_page_link(name, size, code);
    lemma_page_verify(name, size, code);
}

} // verus!
