//! The texts of the editor's headers and names; laying them out is left to the caller.

use crate::text::{
    append_char, append_decimal, chars_of, decimal, find_text, first_occurrence,
    lemma_decimal_value, skip_prefixes, string_of, trim_bounds, trimmed, without_prefixes,
};
use vstd::prelude::*;
use vstd::utf8::{decode_utf8, encode_utf8, encode_utf8_decode_utf8, is_char_boundary};

verus! {

/// The method of a request.
#[derive(Clone, Copy, Debug, PartialEq, Eq, Structural)]
pub enum Method {
    Get,
    Post,
    Put,
    Patch,
    Delete,
    Head,
    Options,
}

impl Method {
    /// The name of the method as it is written in a request.
    pub open spec fn name(self) -> Seq<char> {
        match self {
            Method::Get => "GET"@,
            Method::Post => "POST"@,
            Method::Put => "PUT"@,
            Method::Patch => "PATCH"@,
            Method::Delete => "DELETE"@,
            Method::Head => "HEAD"@,
            Method::Options => "OPTIONS"@,
        }
    }

    /// The name of the method as it is written in a request.
    pub fn as_str(self) -> (name: &'static str)
        ensures
            name@ == self.name(),
    {
        match self {
            Method::Get => "GET",
            Method::Post => "POST",
            Method::Put => "PUT",
            Method::Patch => "PATCH",
            Method::Delete => "DELETE",
            Method::Head => "HEAD",
            Method::Options => "OPTIONS",
        }
    }
}

/// What a header needs of a request.
#[derive(Clone, Debug)]
pub struct Request {
    pub method: Method,
    pub base_url: String,
}

/// A request under its name in the collection.
#[derive(Clone, Debug)]
pub struct HttpRecord {
    pub name: String,
    pub request: Request,
}

/// Which colour of the theme a piece of a header takes.
#[derive(Clone, Copy, Debug, PartialEq, Eq, Structural)]
pub enum Tone {
    /// The colour of ordinary text.
    Text,
    /// The colour of warnings.
    Warn,
}

/// One piece of a header: a text in one colour, in strong print or not.
#[derive(Clone, Debug)]
pub struct HeaderPiece {
    pub text: String,
    pub tone: Tone,
    pub strong: bool,
}

/// A `HeaderPiece` as mathematical data.
pub struct PieceView {
    pub text: Seq<char>,
    pub tone: Tone,
    pub strong: bool,
}

impl View for HeaderPiece {
    type V = PieceView;

    open spec fn view(&self) -> PieceView {
        PieceView { text: self.text@, tone: self.tone, strong: self.strong }
    }
}

/// The pieces of a header as mathematical data.
pub open spec fn pieces_view(pieces: Seq<HeaderPiece>) -> Seq<PieceView> {
    Seq::new(pieces.len(), |i: int| pieces[i]@)
}

/// The address of a request as a header shows it: without the white space around it and
/// without the scheme before it.
pub open spec fn shown_address(base_url: Seq<char>) -> Seq<char> {
    without_prefixes(without_prefixes(trimmed(base_url), "http://"@), "https://"@)
}

/// The title of a request: its name, or its address where it has no name.
pub open spec fn title_of(name: Seq<char>, base_url: Seq<char>) -> Seq<char> {
    if name.len() > 0 {
        name
    } else {
        shown_address(base_url)
    }
}

/// `title` fits into `size` bytes of UTF-8, or can be cut behind its first `size` bytes
/// without cutting through a character.
pub open spec fn can_shorten(title: Seq<char>, size: usize) -> bool {
    encode_utf8(title).len() > size ==> is_char_boundary(encode_utf8(title), size as int)
}

/// `title` as it is if it fits into `size` bytes of UTF-8, else its first `size` bytes and
/// three dots.
pub open spec fn shortened(title: Seq<char>, size: usize) -> Seq<char> {
    if encode_utf8(title).len() > size {
        decode_utf8(encode_utf8(title).subrange(0, size as int)) + "..."@
    } else {
        title
    }
}

/// `title` cut down to `size` bytes of UTF-8.
pub fn shorten(title: String, size: usize) -> (short: String)
    requires
        can_shorten(title@, size),
    ensures
        short@ == shortened(title@, size),
{
    if title.as_str().as_bytes().len() > size {
        let (head, _) = title.as_str().split_at(size);
        proof {
            encode_utf8_decode_utf8(head@);
            assert(encode_utf8(head@) == encode_utf8(title@).subrange(0, size as int));
        }
        let mut short = head.to_owned();
        short.append("...");
        short
    } else {
        title
    }
}

/// The header of a request that has an address: its method in the colour of warnings, then
/// its title, cut down to `max_char` bytes where a limit is given. A request without an
/// address is untitled.
pub open spec fn rest_header(
    name: Seq<char>,
    method: Method,
    base_url: Seq<char>,
    max_char: Option<usize>,
) -> Seq<PieceView> {
    if shown_address(base_url).len() > 0 {
        seq![
            PieceView { text: method.name() + " "@, tone: Tone::Warn, strong: true },
            PieceView {
                text: match max_char {
                    Some(size) => shortened(title_of(name, base_url), size),
                    None => title_of(name, base_url),
                },
                tone: Tone::Text,
                strong: false,
            },
        ]
    } else {
        seq![PieceView { text: "Untitled Request"@, tone: Tone::Text, strong: true }]
    }
}

/// The title of the request `hr`, if it has an address to show.
pub fn header_title(hr: &HttpRecord) -> (title: Option<String>)
    ensures
        match title {
            Some(text) => shown_address(hr.request.base_url@).len() > 0 && text@ == title_of(
                hr.name@,
                hr.request.base_url@,
            ),
            None => shown_address(hr.request.base_url@).len() == 0,
        },
{
    let address = chars_of(hr.request.base_url.as_str());
    let (from, to) = trim_bounds(address.as_slice(), 0, address.len());
    assert(address@.subrange(0, address@.len() as int) =~= address@);
    let http = chars_of("http://");
    let from = skip_prefixes(address.as_slice(), from, to, http.as_slice());
    let https = chars_of("https://");
    let from = skip_prefixes(address.as_slice(), from, to, https.as_slice());
    if from == to {
        None
    } else if hr.name.as_str().unicode_len() > 0 {
        Some(hr.name.clone())
    } else {
        Some(string_of(address.as_slice(), from, to))
    }
}

/// The header can be built: no limit is given, there is no title to cut, or the title can
/// be cut at the limit.
pub open spec fn can_build(name: Seq<char>, base_url: Seq<char>, max_char: Option<usize>) -> bool {
    max_char matches Some(size) ==> shown_address(base_url).len() > 0 ==> can_shorten(
        title_of(name, base_url),
        size,
    )
}

/// The pieces of the header of the request `hr`.
pub fn build_rest_ui_header(hr: HttpRecord, max_char: Option<usize>) -> (pieces: Vec<HeaderPiece>)
    requires
        can_build(hr.name@, hr.request.base_url@, max_char),
    ensures
        pieces_view(pieces@) == rest_header(hr.name@, hr.request.method, hr.request.base_url@, max_char),
{
    let method = hr.request.method;
    let mut pieces: Vec<HeaderPiece> = Vec::new();
    match header_title(&hr) {
        Some(title) => {
            let mut verb = method.as_str().to_owned();
            verb.append(" ");
            pieces.push(HeaderPiece { text: verb, tone: Tone::Warn, strong: true });
            let title = match max_char {
                Some(size) => shorten(title, size),
                None => title,
            };
            pieces.push(HeaderPiece { text: title, tone: Tone::Text, strong: false });
        },
        None => {
            pieces.push(
                HeaderPiece { text: "Untitled Request".to_owned(), tone: Tone::Text, strong: true },
            );
        },
    }
    assert(pieces_view(pieces@) =~= rest_header(
        hr.name@,
        hr.request.method,
        hr.request.base_url@,
        max_char,
    ));
    pieces
}

/// The pieces of the header of the request `hr`, or nothing where the limit would cut its
/// title in the middle of a character.
pub fn try_build_rest_ui_header(hr: HttpRecord, max_char: Option<usize>) -> (pieces: Option<
    Vec<HeaderPiece>,
>)
    ensures
        match pieces {
            Some(built) => can_build(hr.name@, hr.request.base_url@, max_char) && pieces_view(
                built@,
            ) == rest_header(hr.name@, hr.request.method, hr.request.base_url@, max_char),
            None => !can_build(hr.name@, hr.request.base_url@, max_char),
        },
{
    let fits = match max_char {
        Some(size) => match header_title(&hr) {
            Some(title) => title.as_str().as_bytes().len() <= size || title.as_str().is_char_boundary(
                size,
            ),
            None => true,
        },
        None => true,
    };
    if fits {
        Some(build_rest_ui_header(hr, max_char))
    } else {
        None
    }
}

/// The header of a list: its name, and behind it in the colour of warnings a dot where
/// `count` is the largest number there is, or the number of its items in brackets where it
/// has any.
pub open spec fn count_header(name: Seq<char>, count: usize) -> Seq<PieceView> {
    seq![PieceView { text: name + " "@, tone: Tone::Text, strong: true }] + (if count == usize::MAX {
        seq![PieceView { text: "●"@, tone: Tone::Warn, strong: true }]
    } else if count > 0 {
        seq![
            PieceView {
                text: "("@ + decimal(count as nat) + ")"@,
                tone: Tone::Warn,
                strong: true,
            },
        ]
    } else {
        Seq::empty()
    })
}

/// The pieces of the header of a list called `name` with `count` items.
pub fn build_with_count_ui_header(name: String, count: usize) -> (pieces: Vec<HeaderPiece>)
    ensures
        pieces_view(pieces@) == count_header(name@, count),
{
    let mut pieces: Vec<HeaderPiece> = Vec::new();
    let mut title = name;
    title.append(" ");
    pieces.push(HeaderPiece { text: title, tone: Tone::Text, strong: true });
    if count == usize::MAX {
        pieces.push(HeaderPiece { text: "●".to_owned(), tone: Tone::Warn, strong: true });
    } else if count > 0 {
        let mut number = "(".to_owned();
        append_decimal(&mut number, count as u128);
        number.append(")");
        pieces.push(HeaderPiece { text: number, tone: Tone::Warn, strong: true });
    }
    assert(pieces_view(pieces@) =~= count_header(name@, count));
    pieces
}

/// The hasher of the sets of names that the editor keeps.
#[verifier::external_type_specification]
#[verifier::external_body]
pub struct ExAhashState(egui::ahash::RandomState);

/// The names that a set holds.
pub uninterp spec fn held_names(
    names: std::collections::HashSet<String, egui::ahash::RandomState>,
) -> Set<Seq<char>>;

/// The set holds `count` names, and so no more than finitely many.
pub open spec fn counts(held: Set<Seq<char>>, count: usize) -> bool {
    held.finite() && held.len() == count
}

/// `HashSet::contains` of std, on a set with the hasher of `ahash`: whether the set holds
/// a string with the characters of `name`.
#[verifier::external_body]
fn holds_name(
    names: &std::collections::HashSet<String, egui::ahash::RandomState>,
    name: &String,
) -> (found: bool)
    ensures
        found == held_names(*names).contains(name@),
{
    names.contains(name)
}

/// `HashSet::len` of std, on a set with the hasher of `ahash`: the number of strings in the
/// set, of which there are finitely many.
#[verifier::external_body]
fn count_names(names: &std::collections::HashSet<String, egui::ahash::RandomState>) -> (count: usize)
    ensures
        counts(held_names(*names), count),
{
    names.len()
}

/// The name that copies of `name` are numbered from: what stands before its first `Copy`,
/// without the white space around it.
pub open spec fn copy_base(name: Seq<char>) -> Seq<char> {
    trimmed(name.take(first_occurrence(name, "Copy"@)))
}

/// The names that a copy can take, in the order in which they are tried: the base itself,
/// then the base with the numbers from two on.
pub open spec fn copy_candidate(base: Seq<char>, k: nat) -> Seq<char> {
    if k == 0 {
        base
    } else {
        base + " Copy "@ + decimal(k + 1)
    }
}

/// The candidate of number `k` is free, and all before it are taken.
pub open spec fn first_free(held: Set<Seq<char>>, base: Seq<char>, k: nat) -> bool {
    &&& !held.contains(copy_candidate(base, k))
    &&& forall|j: nat| j < k ==> held.contains(#[trigger] copy_candidate(base, j))
}

/// No two candidates are the same name.
pub proof fn lemma_candidates_differ(base: Seq<char>, i: nat, j: nat)
    requires
        i != j,
    ensures
        copy_candidate(base, i) != copy_candidate(base, j),
{
    reveal_strlit(" Copy ");
    lemma_decimal_value(i + 1);
    lemma_decimal_value(j + 1);
    let a = copy_candidate(base, i);
    let b = copy_candidate(base, j);
    if i > 0 && j > 0 && a == b {
        assert(a.skip(base.len() as int + 6) =~= decimal(i + 1));
        assert(b.skip(base.len() as int + 6) =~= decimal(j + 1));
    }
}

/// A set that holds the first `k` candidates holds at least `k` names.
proof fn lemma_candidates_counted(held: Set<Seq<char>>, base: Seq<char>, k: nat)
    requires
        held.finite(),
        forall|j: nat| j < k ==> held.contains(#[trigger] copy_candidate(base, j)),
    ensures
        k <= held.len(),
{
    let tried = Seq::new(k, |j: int| copy_candidate(base, j as nat));
    assert forall|i: int, j: int| 0 <= i < tried.len() && 0 <= j < tried.len() && i != j implies tried[i]
        != tried[j] by {
        lemma_candidates_differ(base, i as nat, j as nat);
    }
    tried.unique_seq_to_set();
    assert forall|t: Seq<char>| tried.to_set().contains(t) implies held.contains(t) by {
        let j = choose|j: int| 0 <= j < tried.len() && tried[j] == t;
        assert(held.contains(copy_candidate(base, j as nat)));
    }
    vstd::set_lib::lemma_len_subset(tried.to_set(), held);
}

/// A name for the copy of what is called `name`: the name that copies of it are numbered
/// from if `names` does not hold it, else that name with `Copy` and the first number from
/// two on that gives a name which `names` does not hold.
pub fn build_copy_name(
    name: String,
    names: std::collections::HashSet<String, egui::ahash::RandomState>,
) -> (new_name: String)
    ensures
        exists|k: nat|
            first_free(held_names(names), copy_base(name@), k) && new_name@ == copy_candidate(
                copy_base(name@),
                k,
            ),
{
    let letters = chars_of(name.as_str());
    let word = chars_of("Copy");
    let cut = find_text(letters.as_slice(), word.as_slice());
    let (from, to) = trim_bounds(letters.as_slice(), 0, cut);
    assert(letters@.subrange(0, cut as int) =~= letters@.take(cut as int));
    let base = string_of(letters.as_slice(), from, to);
    let limit = count_names(&names);
    let ghost held = held_names(names);
    let mut new_name = base.clone();
    let mut k: u128 = 0;
    loop
        invariant
            held == held_names(names),
            held.finite(),
            limit == held.len(),
            k <= limit,
            base@ == copy_base(name@),
            new_name@ == copy_candidate(base@, k as nat),
            forall|j: nat| j < k ==> held.contains(#[trigger] copy_candidate(base@, j)),
        decreases limit - k,
    {
        if !holds_name(&names, &new_name) {
            assert(first_free(held, base@, k as nat));
            return new_name;
        }
        proof {
            lemma_candidates_counted(held, base@, (k + 1) as nat);
        }
        k += 1;
        new_name = base.clone();
        new_name.append(" Copy ");
        append_decimal(&mut new_name, k + 1);
    }
}

/// What `char::is_alphabetic` of std says of a character: whether it has the Unicode
/// property `Alphabetic`.
pub uninterp spec fn alphabetic(c: char) -> bool;

/// What `char::is_numeric` of std says of a character: whether it is in one of the Unicode
/// categories of numbers.
pub uninterp spec fn numeric(c: char) -> bool;

/// `char::is_alphabetic` of std.
#[verifier::external_body]
fn is_alphabetic(c: char) -> (r: bool)
    ensures
        r == alphabetic(c),
{
    c.is_alphabetic()
}

/// `char::is_numeric` of std.
#[verifier::external_body]
fn is_numeric(c: char) -> (r: bool)
    ensures
        r == numeric(c),
{
    c.is_numeric()
}

/// A character that a name of an item may hold: a letter, a number or the underscore.
pub open spec fn name_char(c: char) -> bool {
    ||| 'a' <= c <= 'z'
    ||| 'A' <= c <= 'Z'
    ||| alphabetic(c)
    ||| numeric(c)
    ||| c == '_'
}

/// `c` as a name of an item takes it: a slash and a space become an underscore.
pub open spec fn name_form(c: char) -> char {
    if c == '/' || c == ' ' {
        '_'
    } else {
        c
    }
}

/// `text` as the name of an item: each slash and each space as an underscore, and of the
/// other characters only the letters, the numbers and the underscores.
pub open spec fn name_text(text: Seq<char>) -> Seq<char> {
    text.map_values(|c: char| name_form(c)).filter(|c: char| name_char(c))
}

/// Makes `text` the name of an item: what is no letter, number or underscore goes, but for
/// the slashes and spaces, which become underscores.
pub fn text_edit_singleline_filter(text: &mut String)
    ensures
        final(text)@ == name_text(old(text)@),
{
    let letters = chars_of(text.as_str());
    let ghost formed = letters@.map_values(|c: char| name_form(c));
    let ghost keep = |c: char| name_char(c);
    let mut out = String::new();
    let mut i: usize = 0;
    assert(formed.take(0) =~= Seq::<char>::empty());
    while i < letters.len()
        invariant
            i <= letters.len(),
            letters@ == old(text)@,
            formed == letters@.map_values(|c: char| name_form(c)),
            keep == (|c: char| name_char(c)),
            out@ == formed.take(i as int).filter(keep),
        decreases letters.len() - i,
    {
        let c = letters[i];
        let c = if c == '/' || c == ' ' {
            '_'
        } else {
            c
        };
        proof {
            assert(formed.take(i + 1) =~= formed.take(i as int).push(c));
            Seq::lemma_filter_push(formed.take(i as int), c, keep);
        }
        if ('a' <= c && c <= 'z') || ('A' <= c && c <= 'Z') || is_alphabetic(c) || is_numeric(c) || c
            == '_' {
            append_char(&mut out, c);
        }
        i += 1;
    }
    assert(formed.take(letters@.len() as int) =~= formed);
    *text = out;
}

} // verus!
