//! What the download site answers to a code typed on the entry page.
use vstd::prelude::*;
use vstd::utf8::encode_utf8;
use crate::file_manager::{
    code_alphabet, is_code, law_code_has_four_bytes, lookup, opt_file_view, FileManager,
    SharedFileView,
};
use crate::pages::{render_download_page, render_fsf_entry_page, spec_download_page, spec_entry_page};
use crate::text::{find_first, lemma_find_first_is, split_on, utf8_len_is};
use crate::url::{
    code_from_query, code_key, first_code_value, lemma_split_first, pair_code_value, query_code,
    url_decode, urlencoding_decode,
};

verus! {

/// Shown when the code is not four bytes long.
pub const MSG_NEED_CODE: &'static str = "请输入4位验证码";

/// Shown when no file is shared under the code.
pub const MSG_UNKNOWN_CODE: &'static str = "验证码无效，请检查后重试";

/// The page for the query string of `/fsf/verify`: the entry page again,
/// with a notice, unless the decoded code is four bytes long and leads to a
/// shared file, whose download page is shown.
pub open spec fn spec_verify_page(table: Map<Seq<char>, SharedFileView>, query: Seq<char>) -> Seq<
    char,
> {
    let code = url_decode(query_code(query));
    if encode_utf8(code).len() != 4 {
        spec_entry_page(Some(MSG_NEED_CODE@))
    } else {
        match lookup(table, code) {
            Some(f) => spec_download_page(f.file_name, f.file_size, f.code),
            None => spec_entry_page(Some(MSG_UNKNOWN_CODE@)),
        }
    }
}

/// Answers `/fsf/verify?<query>` from the shared files.
pub fn verify_page(fm: &FileManager, query: &str) -> (r: String)
    ensures
        r@ == spec_verify_page(fm@, query@),
{
    let raw = code_from_query(query);
    let code = urlencoding_decode(raw.as_str());
    if !utf8_len_is(code.as_str(), 4) {
        return render_fsf_entry_page(Some(MSG_NEED_CODE));
    }
    match fm.get_file(code.as_str()) {
        Some(f) => render_download_page(f.file_name.as_str(), f.file_size, f.code.as_str()),
        None => render_fsf_entry_page(Some(MSG_UNKNOWN_CODE)),
    }
}

proof fn lemma_code_chars(code: Seq<char>)
    requires
        is_code(code),
    ensures
        forall|i: int|
            0 <= i < code.len() ==> #[trigger] code[i] != '%' && code[i] != '&' && code[i] != '=',
{
    assert forall|i: int| 0 <= i < code.len() implies #[trigger] code[i] != '%' && code[i] != '&'
        && code[i] != '=' by {
        let c = code[i];
        assert(code_alphabet().contains(c));
        let j = choose|j: int| 0 <= j < code_alphabet().len() && code_alphabet()[j] == c;
    }
}

proof fn lemma_decode_plain(s: Seq<char>)
    requires
        forall|i: int| 0 <= i < s.len() ==> s[i] != '%',
    ensures
        url_decode(s) == s,
    decreases s.len(),
{
    if s.len() > 0 {
        lemma_decode_plain(s.skip(1));
        assert(seq![s[0]] + s.skip(1) =~= s);
    }
}

/// The query `code=<code>` carries `code` itself, which is four bytes long.
proof fn lemma_code_query(code: Seq<char>)
    requires
        is_code(code),
    ensures
        url_decode(query_code(code_key() + seq!['='] + code)) == code,
        encode_utf8(code).len() == 4,
{
    let q = code_key() + seq!['='] + code;
    lemma_code_chars(code);
    assert forall|i: int| 0 <= i < q.len() implies q[i] != '&' by {
        if i >= 5 {
            assert(q[i] == code[i - 5]);
        }
    }
    lemma_find_first_is(q, '&', q.len() as int);
    lemma_split_first(q, '&');
    assert forall|i: int| 0 <= i < 4 implies q[i] != '=' by {}
    lemma_find_first_is(q, '=', 4);
    lemma_split_first(q, '=');
    assert(q.take(4) =~= code_key());
    assert(q.skip(5) =~= code);
    assert forall|i: int| 0 <= i < code.len() implies code[i] != '=' by {}
    lemma_find_first_is(code, '=', code.len() as int);
    lemma_split_first(code, '=');
    assert(pair_code_value(q) == Some(code));
    assert(query_code(q) == code);
    lemma_decode_plain(code);
    law_code_has_four_bytes(code);
}

/// Typing the code of a shared file on the entry page (which sends
/// `code=<code>`) brings up that file's download page.
pub proof fn law_code_query_finds_file(table: Map<Seq<char>, SharedFileView>, code: Seq<char>)
    requires
        is_code(code),
        table.contains_key(code),
    ensures
        spec_verify_page(table, code_key() + seq!['='] + code) == spec_download_page(
            table[code].file_name,
            table[code].file_size,
            table[code].code,
        ),
{
    lemma_code_query(code);
}

/// Once a file is taken off the list, its code is answered with the
/// unknown-code notice.
pub proof fn law_removed_code_is_refused(table: Map<Seq<char>, SharedFileView>, code: Seq<char>)
    requires
        is_code(code),
    ensures
        spec_verify_page(table.remove(code), code_key() + seq!['='] + code) == spec_entry_page(
            Some(MSG_UNKNOWN_CODE@),
        ),
{
    lemma_code_query(code);
}

} // verus!
