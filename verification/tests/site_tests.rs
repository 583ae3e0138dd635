use fastfiles::file_manager::FileManager;
use fastfiles::pages::{render_404_page, render_download_page, render_fsf_entry_page};
use fastfiles::site::verify_page;

#[test]
fn code_of_shared_file_gives_download_page() {
    let mut fm = FileManager::new();
    let f = fm.add_file("report.pdf".to_string(), "/x/report.pdf".to_string(), 2048).unwrap();
    let page = verify_page(&fm, &format!("code={}", f.code));
    assert_eq!(page, render_download_page("report.pdf", 2048, &f.code));
    assert!(page.contains("<h2>report.pdf</h2>"));
    assert!(page.contains("文件大小：2.0 KB"));
    assert!(page.contains(&format!("href=\"/api/fsf/download/{}\"", f.code)));
    assert!(page.contains("📕"));
}

#[test]
fn escaped_code_is_decoded() {
    let mut fm = FileManager::new();
    let f = fm.add_file("a.zip".to_string(), "a".to_string(), 5).unwrap();
    let escaped: String = f.code.chars().map(|c| format!("%{:02X}", c as u32)).collect();
    let page = verify_page(&fm, &format!("x=y&code={}", escaped));
    assert_eq!(page, render_download_page("a.zip", 5, &f.code));
}

#[test]
fn wrong_length_asks_again() {
    let fm = FileManager::new();
    let page = verify_page(&fm, "code=ABC");
    assert_eq!(page, render_fsf_entry_page(Some("请输入4位验证码")));
    assert_eq!(verify_page(&fm, ""), render_fsf_entry_page(Some("请输入4位验证码")));
    // Two characters of two bytes each are four bytes.
    assert_eq!(verify_page(&fm, "code=%C3%C4"), render_fsf_entry_page(Some("验证码无效，请检查后重试")));
}

#[test]
fn unknown_code_is_reported() {
    let mut fm = FileManager::new();
    let f = fm.add_file("a".to_string(), "a".to_string(), 1).unwrap();
    let other = if f.code == "ZZZZ" { "YYYY" } else { "ZZZZ" };
    let page = verify_page(&fm, &format!("code={}", other));
    assert_eq!(page, render_fsf_entry_page(Some("验证码无效，请检查后重试")));
}

#[test]
fn pages_are_whole_documents() {
    let entry = render_fsf_entry_page(None);
    assert!(entry.starts_with("<!DOCTYPE html>"));
    assert!(entry.ends_with("</html>"));
    assert!(!entry.contains("error-msg\""));
    assert!(entry.contains("* { margin: 0; padding: 0; box-sizing: border-box; }"));
    let with_error = render_fsf_entry_page(Some("oops"));
    assert!(with_error.contains(
        "<div class=\"error-msg\" style=\"color: #e74c3c; margin-bottom: 16px; font-size: 14px;\">oops</div>"
    ));
    assert_eq!(with_error.len(), render_fsf_entry_page(Some("")).len() + 4);
    let dl = render_download_page("a b.mp4", 0, "ABCD");
    assert!(dl.contains("<div class=\"file-icon\">🎬</div>"));
    assert!(dl.contains("文件大小：0 B"));
    assert!(dl.contains("aria2c -x 16 -s 16 \"{download_url}\""));
    assert!(dl.contains("var apiUrl = location.origin + '/api/fsf/download/ABCD';"));
    assert!(dl.contains("var downloadUrl = location.origin + '/fsf/verify?code=ABCD';"));
    assert!(dl.contains(".replace('{{download_url}}', downloadUrl).replace('{{api_url}}', apiUrl);"));
    let nf = render_404_page();
    assert!(nf.contains("<h1>404</h1>"));
    assert!(nf.contains("* { margin: 0; padding: 0; box-sizing: border-box; }"));
}

#[test]
fn removed_code_is_refused() {
    let mut fm = FileManager::new();
    let f = fm.add_file("gone.txt".to_string(), "/x/gone.txt".to_string(), 3).unwrap();
    assert!(fm.remove_file(&f.code));
    let page = verify_page(&fm, &format!("code={}", f.code));
    assert_eq!(page, render_fsf_entry_page(Some("验证码无效，请检查后重试")));
}

#[test]
fn download_page_shows_the_file() {
    let page = render_download_page("a.zip", 1536, "QX7K");
    assert!(page.contains("<div class=\"file-icon\">🗜️</div>"));
    assert!(page.contains("<h2>a.zip</h2>"));
    assert!(page.contains("文件大小：1.5 KB"));
    assert!(page.contains("href=\"/api/fsf/download/QX7K\""));
    assert!(page.contains("'/fsf/verify?code=QX7K'"));
}
