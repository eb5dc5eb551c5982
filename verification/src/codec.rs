use vstd::prelude::*;
use crate::json::{
    expect_lit, join_comma, lemma_parse_quoted_bound, lemma_parse_quoted_of,
    lemma_parse_str_list_bound, lemma_parse_str_list_of, lit_at, parse_quoted, parse_str_list,
    parse_string, parse_string_list, push_lit, push_quoted, push_str_list, quoted, str_list,
};
use crate::manifest::{BaseView, ManifestView, PackageBase, PackageManifest};
use crate::package::{File, FileView, Package, PackageView};
use crate::text::{chars_to_string, str_to_chars};
use crate::Error;

verus! {

/// The JSON object a collected file is written as.
pub open spec fn file_obj(f: FileView) -> Seq<char> {
    "{\"content\":"@ + quoted(f.content) + ",\"digest\":"@ + quoted(f.digest) + seq!['}']
}

/// One member of the file map: the path as key, the file object as value.
pub open spec fn file_entry(path: Seq<char>, f: FileView) -> Seq<char> {
    quoted(path) + seq![':'] + file_obj(f)
}

/// The members of a file map, in stored order, without the braces.
pub open spec fn files_body(fs: Seq<(Seq<char>, FileView)>) -> Seq<char> {
    join_comma(fs.map_values(|e: (Seq<char>, FileView)| file_entry(e.0, e.1)))
}

/// The JSON object holding a package's file map, in stored order.
pub open spec fn files_obj(fs: Seq<(Seq<char>, FileView)>) -> Seq<char> {
    seq!['{'] + files_body(fs) + seq!['}']
}

/// The shared descriptive members, flattened into their owning object.
pub open spec fn base_fields_text(b: BaseView) -> Seq<char> {
    "\"description\":"@ + quoted(b.description) + ",\"license\":"@ + quoted(b.license)
        + ",\"authors\":"@ + str_list(b.authors) + ",\"maintainers\":"@ + str_list(b.maintainers)
}

/// The manifest's members of the package object, flattened.
pub open spec fn manifest_fields(m: ManifestView) -> Seq<char> {
    base_fields_text(m.base) + ",\"version\":"@ + quoted(m.version) + ",\"dependencies\":"@
        + str_list(m.dependencies)
}

/// The canonical JSON text of a whole package.
pub open spec fn package_json(p: PackageView) -> Seq<char> {
    seq!['{'] + manifest_fields(p.manifest) + ",\"files\":"@ + files_obj(p.files) + seq!['}']
}

/// Write a package as its canonical JSON text.
pub(crate) fn print_package(p: &Package) -> (out: Vec<char>)
    ensures
        out@ == package_json(p@),
{
    let mut out: Vec<char> = Vec::new();
    out.push('{');
    push_lit(&mut out, "\"description\":");
    push_quoted(&mut out, p.manifest.base.description.as_str());
    push_lit(&mut out, ",\"license\":");
    push_quoted(&mut out, p.manifest.base.license.as_str());
    push_lit(&mut out, ",\"authors\":");
    push_str_list(&mut out, &p.manifest.base.authors);
    push_lit(&mut out, ",\"maintainers\":");
    push_str_list(&mut out, &p.manifest.base.maintainers);
    push_lit(&mut out, ",\"version\":");
    push_quoted(&mut out, p.manifest.version.as_str());
    push_lit(&mut out, ",\"dependencies\":");
    push_str_list(&mut out, &p.manifest.dependencies);
    push_lit(&mut out, ",\"files\":");
    proof {
        assert(out@ =~= seq!['{'] + manifest_fields(p@.manifest) + ",\"files\":"@);
    }
    out.push('{');
    let ghost pre = out@;
    let ghost pieces = p@.files.map_values(|e: (Seq<char>, FileView)| file_entry(e.0, e.1));
    let mut i: usize = 0;
    proof {
        assert(out@ =~= pre + join_comma(pieces.take(0)));
        assert(pieces.len() == p.files@.len());
    }
    while i < p.files.len()
        invariant
            pre == seq!['{'] + manifest_fields(p@.manifest) + ",\"files\":"@ + seq!['{'],
            pieces == p@.files.map_values(|e: (Seq<char>, FileView)| file_entry(e.0, e.1)),
            pieces.len() == p.files@.len(),
            i <= p.files@.len(),
            out@ == pre + join_comma(pieces.take(i as int)),
        decreases p.files@.len() - i,
    {
        if i > 0 {
            out.push(',');
        }
        let ghost mid = out@;
        push_quoted(&mut out, p.files[i].0.as_str());
        out.push(':');
        push_lit(&mut out, "{\"content\":");
        push_quoted(&mut out, p.files[i].1.content.as_str());
        push_lit(&mut out, ",\"digest\":");
        push_quoted(&mut out, p.files[i].1.digest.as_str());
        out.push('}');
        proof {
            let e = p@.files[i as int];
            assert(e.0 == p.files@[i as int].0@ && e.1 == p.files@[i as int].1@);
            assert(out@ =~= mid + file_entry(e.0, e.1));
            assert(pieces[i as int] == file_entry(e.0, e.1));
            crate::json::lemma_join_comma_snoc(pieces.take(i as int), pieces[i as int]);
            assert(pieces.take(i as int).push(pieces[i as int]) =~= pieces.take(i + 1));
        }
        i += 1;
        proof {
            assert(out@ =~= pre + join_comma(pieces.take(i as int)));
        }
    }
    out.push('}');
    out.push('}');
    proof {
        assert(pieces.take(p.files@.len() as int) =~= pieces);
        assert(out@ =~= package_json(p@));
    }
    out
}

/// A raw DEFLATE stream of a text's UTF-8 bytes. It depends on the text
/// alone.
pub uninterp spec fn deflate_of(s: Seq<char>) -> Seq<u8>;

/// What decompressing a byte sequence as raw DEFLATE and reading the result
/// as UTF-8 yields. It depends on the bytes alone.
pub uninterp spec fn inflate_text_of(b: Seq<u8>) -> Option<Seq<char>>;

/// Relies on deflate::deflate_bytes: a raw (headerless) DEFLATE stream of the
/// input bytes, a function of those bytes alone; and on inflate::inflate_bytes
/// decompressing such a stream back to exactly the bytes that were
/// compressed (here the UTF-8 bytes of `s`, which read back as `s`).
#[verifier::external_body]
fn deflate_text(s: &str) -> (r: Vec<u8>)
    ensures
        r@ == deflate_of(s@),
        inflate_text_of(r@) == Some(s@),
{
    deflate::deflate_bytes(s.as_bytes())
}

/// Relies on inflate::inflate_bytes: raw DEFLATE decompression, a function of
/// the input bytes alone; its output is read back as UTF-8 text.
#[verifier::external_body]
fn inflate_text(b: &Vec<u8>) -> (r: Option<String>)
    ensures
        r matches Some(t) ==> inflate_text_of(b@) == Some(t@),
        r is None ==> inflate_text_of(b@) is None,
{
    match inflate::inflate_bytes(b) {
        Ok(bytes) => String::from_utf8(bytes).ok(),
        Err(_) => None,
    }
}

/// The standard base64 text of a byte sequence. It depends on the bytes
/// alone.
pub uninterp spec fn b64_of(b: Seq<u8>) -> Seq<char>;

/// What standard base64 decoding of a text yields. It depends on the text
/// alone.
pub uninterp spec fn b64_decode_of(s: Seq<char>) -> Option<Seq<u8>>;

/// Relies on base64's standard engine: encoding is a function of the bytes
/// alone, and decoding the encoded text returns exactly those bytes.
#[verifier::external_body]
fn b64_encode(b: &Vec<u8>) -> (r: String)
    ensures
        r@ == b64_of(b@),
        b64_decode_of(r@) == Some(b@),
{
    base64::Engine::encode(&base64::prelude::BASE64_STANDARD, b)
}

/// Relies on base64's standard engine decode, a function of the text alone.
#[verifier::external_body]
fn b64_decode(s: &str) -> (r: Option<Vec<u8>>)
    ensures
        r matches Some(b) ==> b64_decode_of(s@) == Some(b@),
        r is None ==> b64_decode_of(s@) is None,
{
    base64::Engine::decode(&base64::prelude::BASE64_STANDARD, s).ok()
}

/// The artifact text of a package: its canonical JSON, DEFLATE-compressed,
/// then base64-encoded.
pub open spec fn artifact_text_of(p: PackageView) -> Seq<char> {
    b64_of(deflate_of(package_json(p)))
}

/// Parse the two fixed members of a file object.
pub open spec fn parse_file_obj(s: Seq<char>) -> Option<(FileView, int)> {
    let lit1 = "{\"content\":"@;
    let lit2 = ",\"digest\":"@;
    if !lit_at(s, lit1) {
        None
    } else {
        let s1 = s.skip(lit1.len() as int);
        match parse_quoted(s1) {
            None => None,
            Some((content, n1)) => {
                let s2 = s1.skip(n1);
                if !lit_at(s2, lit2) {
                    None
                } else {
                    let s3 = s2.skip(lit2.len() as int);
                    match parse_quoted(s3) {
                        None => None,
                        Some((digest, n2)) => {
                            let s4 = s3.skip(n2);
                            if s4.len() > 0 && s4[0] == '}' {
                                Some(
                                    (
                                        FileView { content, digest },
                                        lit1.len() + n1 + lit2.len() + n2 + 1,
                                    ),
                                )
                            } else {
                                None
                            }
                        },
                    }
                }
            },
        }
    }
}

/// Parse one member of the file map.
pub open spec fn parse_file_entry(s: Seq<char>) -> Option<((Seq<char>, FileView), int)> {
    match parse_quoted(s) {
        None => None,
        Some((path, n)) => {
            let r = s.skip(n);
            if r.len() > 0 && r[0] == ':' {
                match parse_file_obj(r.skip(1)) {
                    None => None,
                    Some((f, m)) => Some(((path, f), n + 1 + m)),
                }
            } else {
                None
            }
        },
    }
}

pub proof fn lemma_parse_file_obj_bound(s: Seq<char>)
    ensures
        parse_file_obj(s) matches Some((f, n)) ==> 1 <= n <= s.len(),
{
    let lit1 = "{\"content\":"@;
    let lit2 = ",\"digest\":"@;
    if lit_at(s, lit1) {
        let s1 = s.skip(lit1.len() as int);
        lemma_parse_quoted_bound(s1);
        match parse_quoted(s1) {
            None => {},
            Some((content, n1)) => {
                let s2 = s1.skip(n1);
                if lit_at(s2, lit2) {
                    let s3 = s2.skip(lit2.len() as int);
                    lemma_parse_quoted_bound(s3);
                }
            },
        }
    }
}

pub proof fn lemma_parse_file_entry_bound(s: Seq<char>)
    ensures
        parse_file_entry(s) matches Some((e, n)) ==> 1 <= n <= s.len(),
{
    lemma_parse_quoted_bound(s);
    match parse_quoted(s) {
        None => {},
        Some((path, n)) => {
            let r = s.skip(n);
            if r.len() > 0 && r[0] == ':' {
                lemma_parse_file_obj_bound(r.skip(1));
            }
        },
    }
}

/// Parse the members of a non-empty file map after the opening brace,
/// closing brace included.
pub open spec fn parse_files_items(s: Seq<char>) -> Option<(Seq<(Seq<char>, FileView)>, int)>
    decreases s.len(),
    via parse_files_items_dec
{
    match parse_file_entry(s) {
        None => None,
        Some((e, n)) => {
            let r = s.skip(n);
            if r.len() > 0 && r[0] == ',' {
                match parse_files_items(s.skip(n + 1)) {
                    Some((l, m)) => Some((seq![e] + l, n + 1 + m)),
                    None => None,
                }
            } else if r.len() > 0 && r[0] == '}' {
                Some((seq![e], n + 1))
            } else {
                None
            }
        },
    }
}

#[via_fn]
proof fn parse_files_items_dec(s: Seq<char>) {
    lemma_parse_file_entry_bound(s);
}

/// Parse a whole file map, braces included.
pub open spec fn parse_files_obj(s: Seq<char>) -> Option<(Seq<(Seq<char>, FileView)>, int)> {
    if s.len() == 0 || s[0] != '{' {
        None
    } else if s.len() >= 2 && s[1] == '}' {
        Some((Seq::empty(), 2))
    } else {
        match parse_files_items(s.skip(1)) {
            Some((l, n)) => Some((l, n + 1)),
            None => None,
        }
    }
}

/// Parse the flattened manifest members of a package or index object.
pub open spec fn parse_base_fields(s: Seq<char>) -> Option<(BaseView, int)> {
    let lit1 = "\"description\":"@;
    let lit2 = ",\"license\":"@;
    let lit3 = ",\"authors\":"@;
    let lit4 = ",\"maintainers\":"@;
    if !lit_at(s, lit1) {
        None
    } else {
        match parse_quoted(s.skip(lit1.len() as int)) {
            None => None,
            Some((description, n1)) => {
                let s2 = s.skip(lit1.len() + n1);
                if !lit_at(s2, lit2) {
                    None
                } else {
                    match parse_quoted(s2.skip(lit2.len() as int)) {
                        None => None,
                        Some((license, n2)) => {
                            let s3 = s2.skip(lit2.len() + n2);
                            if !lit_at(s3, lit3) {
                                None
                            } else {
                                match parse_str_list(s3.skip(lit3.len() as int)) {
                                    None => None,
                                    Some((authors, n3)) => {
                                        let s4 = s3.skip(lit3.len() + n3);
                                        if !lit_at(s4, lit4) {
                                            None
                                        } else {
                                            match parse_str_list(s4.skip(lit4.len() as int)) {
                                                None => None,
                                                Some((maintainers, n4)) => Some(
                                                    (
                                                        BaseView {
                                                            description,
                                                            license,
                                                            authors,
                                                            maintainers,
                                                        },
                                                        lit1.len() + n1 + lit2.len() + n2
                                                            + lit3.len() + n3 + lit4.len() + n4,
                                                    ),
                                                ),
                                            }
                                        }
                                    },
                                }
                            }
                        },
                    }
                }
            },
        }
    }
}

pub proof fn lemma_parse_base_fields_bound(s: Seq<char>)
    ensures
        parse_base_fields(s) matches Some((b, n)) ==> 1 <= n <= s.len(),
{
    let lit1 = "\"description\":"@;
    let lit2 = ",\"license\":"@;
    let lit3 = ",\"authors\":"@;
    let lit4 = ",\"maintainers\":"@;
    if lit_at(s, lit1) {
        lemma_parse_quoted_bound(s.skip(lit1.len() as int));
        match parse_quoted(s.skip(lit1.len() as int)) {
            None => {},
            Some((description, n1)) => {
                let s2 = s.skip(lit1.len() + n1);
                if lit_at(s2, lit2) {
                    lemma_parse_quoted_bound(s2.skip(lit2.len() as int));
                    match parse_quoted(s2.skip(lit2.len() as int)) {
                        None => {},
                        Some((license, n2)) => {
                            let s3 = s2.skip(lit2.len() + n2);
                            if lit_at(s3, lit3) {
                                lemma_parse_str_list_bound(s3.skip(lit3.len() as int));
                                match parse_str_list(s3.skip(lit3.len() as int)) {
                                    None => {},
                                    Some((authors, n3)) => {
                                        let s4 = s3.skip(lit3.len() + n3);
                                        if lit_at(s4, lit4) {
                                            lemma_parse_str_list_bound(s4.skip(lit4.len() as int));
                                        }
                                    },
                                }
                            }
                        },
                    }
                }
            },
        }
    }
}

/// Parse the version and dependency members that follow the base fields in a
/// package object.
pub open spec fn parse_manifest_fields(s: Seq<char>) -> Option<(ManifestView, int)> {
    let lit5 = ",\"version\":"@;
    let lit6 = ",\"dependencies\":"@;
    match parse_base_fields(s) {
        None => None,
        Some((base, n0)) => {
            let s1 = s.skip(n0);
            if !lit_at(s1, lit5) {
                None
            } else {
                match parse_quoted(s1.skip(lit5.len() as int)) {
                    None => None,
                    Some((version, n5)) => {
                        let s2 = s1.skip(lit5.len() + n5);
                        if !lit_at(s2, lit6) {
                            None
                        } else {
                            match parse_str_list(s2.skip(lit6.len() as int)) {
                                None => None,
                                Some((dependencies, n6)) => Some(
                                    (
                                        ManifestView { base, version, dependencies },
                                        n0 + lit5.len() + n5 + lit6.len() + n6,
                                    ),
                                ),
                            }
                        }
                    },
                }
            }
        },
    }
}

/// Parse a whole canonical package text. The text must be consumed exactly.
pub open spec fn parse_package_json(s: Seq<char>) -> Option<PackageView> {
    let lit7 = ",\"files\":"@;
    if s.len() == 0 || s[0] != '{' {
        None
    } else {
        match parse_manifest_fields(s.skip(1)) {
            None => None,
            Some((manifest, n0)) => {
                let s1 = s.skip(1 + n0);
                if !lit_at(s1, lit7) {
                    None
                } else {
                    match parse_files_obj(s1.skip(lit7.len() as int)) {
                        None => None,
                        Some((files, n1)) => {
                            let s2 = s1.skip(lit7.len() + n1);
                            if s2.len() == 1 && s2[0] == '}' {
                                Some(PackageView { manifest, files })
                            } else {
                                None
                            }
                        },
                    }
                }
            },
        }
    }
}

pub proof fn lemma_parse_file_obj_of(f: FileView, rest: Seq<char>)
    ensures
        parse_file_obj(file_obj(f) + rest) == Some((f, file_obj(f).len() as int)),
{
    let lit1 = "{\"content\":"@;
    let lit2 = ",\"digest\":"@;
    let w = file_obj(f) + rest;
    assert(w.take(lit1.len() as int) =~= lit1);
    let s1 = w.skip(lit1.len() as int);
    let r1 = lit2 + quoted(f.digest) + seq!['}'] + rest;
    assert(s1 =~= quoted(f.content) + r1);
    lemma_parse_quoted_of(f.content, r1);
    let n1 = quoted(f.content).len() as int;
    let s2 = s1.skip(n1);
    assert(s2 =~= r1);
    assert(s2.take(lit2.len() as int) =~= lit2);
    let s3 = s2.skip(lit2.len() as int);
    let r2 = seq!['}'] + rest;
    assert(s3 =~= quoted(f.digest) + r2);
    lemma_parse_quoted_of(f.digest, r2);
    let n2 = quoted(f.digest).len() as int;
    let s4 = s3.skip(n2);
    assert(s4 =~= r2);
    assert(s4[0] == '}');
    assert(FileView { content: f.content, digest: f.digest } =~= f);
}

pub proof fn lemma_parse_file_entry_of(path: Seq<char>, f: FileView, rest: Seq<char>)
    ensures
        parse_file_entry(file_entry(path, f) + rest) == Some(
            ((path, f), file_entry(path, f).len() as int),
        ),
{
    let w = file_entry(path, f) + rest;
    let r1 = seq![':'] + file_obj(f) + rest;
    assert(w =~= quoted(path) + r1);
    lemma_parse_quoted_of(path, r1);
    let n = quoted(path).len() as int;
    let r = w.skip(n);
    assert(r =~= r1);
    assert(r[0] == ':');
    assert(r.skip(1) =~= file_obj(f) + rest);
    lemma_parse_file_obj_of(f, rest);
}

#[verifier::rlimit(60)]
pub proof fn lemma_parse_files_items_of(fs: Seq<(Seq<char>, FileView)>, rest: Seq<char>)
    requires
        fs.len() > 0,
    ensures
        parse_files_items(files_body(fs) + seq!['}'] + rest) == Some(
            (fs, files_body(fs).len() + 1 as int),
        ),
    decreases fs.len(),
{
    let w = files_body(fs) + seq!['}'] + rest;
    let pieces = fs.map_values(|e: (Seq<char>, FileView)| file_entry(e.0, e.1));
    let e0 = fs[0];
    if fs.len() == 1 {
        assert(files_body(fs) =~= file_entry(e0.0, e0.1));
        lemma_parse_file_entry_of(e0.0, e0.1, seq!['}'] + rest);
        assert(w =~= file_entry(e0.0, e0.1) + (seq!['}'] + rest));
        let n = file_entry(e0.0, e0.1).len() as int;
        assert(w.skip(n) =~= seq!['}'] + rest);
        assert(w.skip(n)[0] == '}');
        assert(seq![(e0.0, e0.1)] =~= fs);
    } else {
        assert(pieces.skip(1) =~= fs.skip(1).map_values(
            |e: (Seq<char>, FileView)| file_entry(e.0, e.1),
        ));
        assert(files_body(fs) =~= file_entry(e0.0, e0.1) + seq![','] + files_body(fs.skip(1)));
        let tail = seq![','] + files_body(fs.skip(1)) + seq!['}'] + rest;
        assert(w =~= file_entry(e0.0, e0.1) + tail);
        lemma_parse_file_entry_of(e0.0, e0.1, tail);
        let n = file_entry(e0.0, e0.1).len() as int;
        assert(w.skip(n) =~= tail);
        assert(tail[0] == ',');
        assert(w.skip(n + 1) =~= files_body(fs.skip(1)) + seq!['}'] + rest);
        lemma_parse_files_items_of(fs.skip(1), rest);
        assert(seq![(e0.0, e0.1)] + fs.skip(1) =~= fs);
        assert(parse_files_items(w) == Some((fs, files_body(fs).len() + 1 as int)));
    }
}

pub proof fn lemma_parse_files_obj_of(fs: Seq<(Seq<char>, FileView)>, rest: Seq<char>)
    ensures
        parse_files_obj(files_obj(fs) + rest) == Some((fs, files_obj(fs).len() as int)),
{
    let w = files_obj(fs) + rest;
    assert(w[0] == '{');
    if fs.len() == 0 {
        assert(files_body(fs) =~= Seq::<char>::empty());
        assert(w =~= seq!['{', '}'] + rest);
        assert(w[1] == '}');
        assert(fs =~= Seq::<(Seq<char>, FileView)>::empty());
        assert(files_obj(fs).len() == 2);
    } else {
        assert(w.skip(1) =~= files_body(fs) + seq!['}'] + rest);
        lemma_parse_files_items_of(fs, rest);
        assert(files_body(fs)[0] == '"');
        assert(w[1] == '"');
        assert(!(w.len() >= 2 && w[1] == '}'));
        assert(parse_files_obj(w) == Some((fs, files_obj(fs).len() as int)));
    }
}

#[verifier::rlimit(60)]
pub proof fn lemma_parse_base_fields_of(b: BaseView, rest: Seq<char>)
    ensures
        parse_base_fields(base_fields_text(b) + rest) == Some(
            (b, base_fields_text(b).len() as int),
        ),
{
    let lit1 = "\"description\":"@;
    let lit2 = ",\"license\":"@;
    let lit3 = ",\"authors\":"@;
    let lit4 = ",\"maintainers\":"@;
    let w = base_fields_text(b) + rest;
    assert(w.take(lit1.len() as int) =~= lit1);
    let r1 = lit2 + quoted(b.license) + lit3 + str_list(b.authors) + lit4 + str_list(b.maintainers)
        + rest;
    assert(w.skip(lit1.len() as int) =~= quoted(b.description) + r1);
    lemma_parse_quoted_of(b.description, r1);
    let n1 = quoted(b.description).len() as int;
    let s2 = w.skip(lit1.len() + n1);
    assert(s2 =~= r1);
    assert(s2.take(lit2.len() as int) =~= lit2);
    let r2 = lit3 + str_list(b.authors) + lit4 + str_list(b.maintainers) + rest;
    assert(s2.skip(lit2.len() as int) =~= quoted(b.license) + r2);
    lemma_parse_quoted_of(b.license, r2);
    let n2 = quoted(b.license).len() as int;
    let s3 = s2.skip(lit2.len() + n2);
    assert(s3 =~= r2);
    assert(s3.take(lit3.len() as int) =~= lit3);
    let r3 = lit4 + str_list(b.maintainers) + rest;
    assert(s3.skip(lit3.len() as int) =~= str_list(b.authors) + r3);
    lemma_parse_str_list_of(b.authors, r3);
    let n3 = str_list(b.authors).len() as int;
    let s4 = s3.skip(lit3.len() + n3);
    assert(s4 =~= r3);
    assert(s4.take(lit4.len() as int) =~= lit4);
    assert(s4.skip(lit4.len() as int) =~= str_list(b.maintainers) + rest);
    lemma_parse_str_list_of(b.maintainers, rest);
    assert(BaseView {
        description: b.description,
        license: b.license,
        authors: b.authors,
        maintainers: b.maintainers,
    } =~= b);
}

#[verifier::rlimit(60)]
pub proof fn lemma_parse_manifest_fields_of(m: ManifestView, rest: Seq<char>)
    ensures
        parse_manifest_fields(manifest_fields(m) + rest) == Some(
            (m, manifest_fields(m).len() as int),
        ),
{
    let lit5 = ",\"version\":"@;
    let lit6 = ",\"dependencies\":"@;
    let w = manifest_fields(m) + rest;
    let r0 = lit5 + quoted(m.version) + lit6 + str_list(m.dependencies) + rest;
    assert(w =~= base_fields_text(m.base) + r0);
    lemma_parse_base_fields_of(m.base, r0);
    let n0 = base_fields_text(m.base).len() as int;
    let s1 = w.skip(n0);
    assert(s1 =~= r0);
    assert(s1.take(lit5.len() as int) =~= lit5);
    let r1 = lit6 + str_list(m.dependencies) + rest;
    assert(s1.skip(lit5.len() as int) =~= quoted(m.version) + r1);
    lemma_parse_quoted_of(m.version, r1);
    let n5 = quoted(m.version).len() as int;
    let s2 = s1.skip(lit5.len() + n5);
    assert(s2 =~= r1);
    assert(s2.take(lit6.len() as int) =~= lit6);
    assert(s2.skip(lit6.len() as int) =~= str_list(m.dependencies) + rest);
    lemma_parse_str_list_of(m.dependencies, rest);
    assert(ManifestView { base: m.base, version: m.version, dependencies: m.dependencies } =~= m);
}

/// The canonical package text parses back to exactly the package it was
/// written from.
pub proof fn lemma_parse_package_of(p: PackageView)
    ensures
        parse_package_json(package_json(p)) == Some(p),
{
    let lit7 = ",\"files\":"@;
    let w = package_json(p);
    assert(w[0] == '{');
    let r0 = lit7 + files_obj(p.files) + seq!['}'];
    assert(w.skip(1) =~= manifest_fields(p.manifest) + r0);
    lemma_parse_manifest_fields_of(p.manifest, r0);
    let n0 = manifest_fields(p.manifest).len() as int;
    let s1 = w.skip(1 + n0);
    assert(s1 =~= r0);
    assert(s1.take(lit7.len() as int) =~= lit7);
    assert(s1.skip(lit7.len() as int) =~= files_obj(p.files) + seq!['}']);
    lemma_parse_files_obj_of(p.files, seq!['}']);
    let n1 = files_obj(p.files).len() as int;
    let s2 = s1.skip(lit7.len() + n1);
    assert(s2 =~= seq!['}']);
    assert(s2.len() == 1 && s2[0] == '}');
    assert(PackageView { manifest: p.manifest, files: p.files } =~= p);
}

/// What decoding an artifact text yields: base64, then DEFLATE, then the
/// canonical package text.
pub open spec fn decode_of(s: Seq<char>) -> Option<PackageView> {
    match b64_decode_of(s) {
        None => None,
        Some(b) => match inflate_text_of(b) {
            None => None,
            Some(t) => parse_package_json(t),
        },
    }
}

/// Parse one member of the file map, starting at its key.
pub(crate) fn parse_file_entry_x(v: &Vec<char>, i: usize) -> (r: Option<((String, File), usize)>)
    requires
        i <= v@.len(),
    ensures
        r matches Some(t) ==> i <= t.1 <= v@.len() && parse_file_entry(v@.skip(i as int)) == Some(
            (((t.0).0@, (t.0).1@), t.1 - i as int),
        ),
        r is None ==> parse_file_entry(v@.skip(i as int)) is None,
{
    match parse_string(v, i) {
        None => None,
        Some((path, j)) => {
            proof {
                assert(v@.skip(i as int).skip(j - i as int) =~= v@.skip(j as int));
            }
            if j == v.len() {
                proof {
                    assert(v@.skip(j as int).len() == 0);
                }
                return None;
            }
            if v[j] != ':' {
                proof {
                    assert(v@.skip(j as int)[0] == v@[j as int]);
                }
                return None;
            }
            proof {
                assert(v@.skip(j as int)[0] == ':');
                assert(v@.skip(j as int).skip(1) =~= v@.skip(j + 1 as int));
            }
            match expect_lit(v, j + 1, "{\"content\":") {
                None => None,
                Some(k1) => {
                    proof {
                        assert(v@.skip(j + 1 as int).skip("{\"content\":"@.len() as int) =~= v@.skip(
                            k1 as int,
                        ));
                    }
                    match parse_string(v, k1) {
                        None => None,
                        Some((content, k2)) => {
                            proof {
                                assert(v@.skip(k1 as int).skip(k2 - k1 as int) =~= v@.skip(
                                    k2 as int,
                                ));
                            }
                            match expect_lit(v, k2, ",\"digest\":") {
                                None => None,
                                Some(k3) => {
                                    proof {
                                        assert(v@.skip(k2 as int).skip(
                                            ",\"digest\":"@.len() as int,
                                        ) =~= v@.skip(k3 as int));
                                    }
                                    match parse_string(v, k3) {
                                        None => None,
                                        Some((digest, k4)) => {
                                            proof {
                                                assert(v@.skip(k3 as int).skip(k4 - k3 as int)
                                                    =~= v@.skip(k4 as int));
                                            }
                                            if k4 == v.len() {
                                                proof {
                                                    assert(v@.skip(k4 as int).len() == 0);
                                                }
                                                return None;
                                            }
                                            if v[k4] != '}' {
                                                proof {
                                                    assert(v@.skip(k4 as int)[0] == v@[k4 as int]);
                                                }
                                                return None;
                                            }
                                            proof {
                                                assert(v@.skip(k4 as int)[0] == '}');
                                                assert(v@.skip(k4 as int).len() > 0);
                                            }
                                            Some(((path, File { content, digest }), k4 + 1))
                                        },
                                    }
                                },
                            }
                        },
                    }
                },
            }
        },
    }
}

/// Parse a whole file map, braces included.
pub(crate) fn parse_files_x(v: &Vec<char>, i: usize) -> (r: Option<(Vec<(String, File)>, usize)>)
    requires
        i <= v@.len(),
    ensures
        r matches Some(t) ==> i <= t.1 <= v@.len() && parse_files_obj(v@.skip(i as int)) == Some(
            (t.0@.map_values(|e: (String, File)| (e.0@, e.1@)), t.1 - i as int),
        ),
        r is None ==> parse_files_obj(v@.skip(i as int)) is None,
{
    if i == v.len() || v[i] != '{' {
        return None;
    }
    proof {
        assert(v@.skip(i as int)[0] == '{');
    }
    if i + 1 < v.len() && v[i + 1] == '}' {
        let out: Vec<(String, File)> = Vec::new();
        proof {
            assert(v@.skip(i as int)[1] == '}');
            assert(out@.map_values(|e: (String, File)| (e.0@, e.1@)) =~= Seq::<
                (Seq<char>, FileView),
            >::empty());
        }
        return Some((out, i + 2));
    }
    proof {
        if i + 1 < v@.len() {
            assert(v@.skip(i as int)[1] == v@[i + 1]);
        }
        assert(!(v@.skip(i as int).len() >= 2 && v@.skip(i as int)[1] == '}'));
        assert(v@.skip(i as int).skip(1) =~= v@.skip(i as int + 1));
    }
    let mut acc: Vec<(String, File)> = Vec::new();
    let mut p: usize = i + 1;
    loop
        invariant
            i + 1 <= p <= v@.len(),
            i < v@.len() && v@[i as int] == '{',
            !(v@.skip(i as int).len() >= 2 && v@.skip(i as int)[1] == '}'),
            v@.skip(i as int).skip(1) == v@.skip(i as int + 1),
            parse_files_items(v@.skip(i as int + 1)) == (match parse_files_items(
                v@.skip(p as int),
            ) {
                Some((l, n)) => Some(
                    (acc@.map_values(|e: (String, File)| (e.0@, e.1@)) + l, n + p - i - 1),
                ),
                None => None::<(Seq<(Seq<char>, FileView)>, int)>,
            }),
        decreases v@.len() - p,
    {
        match parse_file_entry_x(v, p) {
            None => {
                return None;
            },
            Some((e, j)) => {
                let ghost ev = (e.0@, e.1@);
                proof {
                    assert(v@.skip(p as int).skip(j - p as int) =~= v@.skip(j as int));
                }
                if j == v.len() {
                    proof {
                        assert(v@.skip(j as int).len() == 0);
                    }
                    return None;
                }
                let c = v[j];
                proof {
                    assert(v@.skip(j as int)[0] == c);
                }
                if c == ',' {
                    let ghost accv = acc@.map_values(|e: (String, File)| (e.0@, e.1@));
                    acc.push(e);
                    proof {
                        assert(v@.skip(p as int).skip(j - p as int + 1) =~= v@.skip(j as int + 1));
                        assert(acc@.map_values(|e: (String, File)| (e.0@, e.1@)) =~= accv.push(ev));
                        match parse_files_items(v@.skip(j as int + 1)) {
                            Some((l, n)) => {
                                assert(parse_files_items(v@.skip(p as int)) == Some(
                                    (seq![ev] + l, n + (j - p as int) + 1),
                                ));
                                assert(accv + (seq![ev] + l) =~= accv.push(ev) + l);
                            },
                            None => {},
                        }
                    }
                    p = j + 1;
                } else if c == '}' {
                    let ghost accv = acc@.map_values(|e: (String, File)| (e.0@, e.1@));
                    acc.push(e);
                    proof {
                        assert(acc@.map_values(|e: (String, File)| (e.0@, e.1@)) =~= accv.push(ev));
                        assert(parse_files_items(v@.skip(p as int)) == Some(
                            (seq![ev], (j - p as int) + 1),
                        ));
                        assert(accv + seq![ev] =~= accv.push(ev));
                        assert(parse_files_items(v@.skip(i as int + 1)) == Some(
                            (accv.push(ev), j + 1 - i - 1 as int),
                        ));
                    }
                    return Some((acc, j + 1));
                } else {
                    return None;
                }
            },
        }
    }
}

/// Parse the flattened descriptive members starting at position `i`.
#[verifier::rlimit(100)]
pub(crate) fn parse_base_x(v: &Vec<char>, i: usize) -> (r: Option<(PackageBase, usize)>)
    requires
        i <= v@.len(),
    ensures
        r matches Some(t) ==> i <= t.1 <= v@.len() && parse_base_fields(v@.skip(i as int)) == Some(
            ((t.0)@, t.1 - i as int),
        ),
        r is None ==> parse_base_fields(v@.skip(i as int)) is None,
{
    let a1 = match expect_lit(v, i, "\"description\":") {
        None => {
            return None;
        },
        Some(a) => a,
    };
    proof {
        assert(v@.skip(i as int).skip("\"description\":"@.len() as int) =~= v@.skip(a1 as int));
    }
    let (description, a2) = match parse_string(v, a1) {
        None => {
            return None;
        },
        Some(t) => t,
    };
    proof {
        assert(v@.skip(i as int).skip(("\"description\":"@.len() + a2 - a1) as int) =~= v@.skip(
            a2 as int,
        ));
    }
    let a3 = match expect_lit(v, a2, ",\"license\":") {
        None => {
            return None;
        },
        Some(a) => a,
    };
    proof {
        assert(v@.skip(a2 as int).skip(",\"license\":"@.len() as int) =~= v@.skip(a3 as int));
    }
    let (license, a4) = match parse_string(v, a3) {
        None => {
            return None;
        },
        Some(t) => t,
    };
    proof {
        assert(v@.skip(a2 as int).skip((",\"license\":"@.len() + a4 - a3) as int) =~= v@.skip(
            a4 as int,
        ));
    }
    let a5 = match expect_lit(v, a4, ",\"authors\":") {
        None => {
            return None;
        },
        Some(a) => a,
    };
    proof {
        assert(v@.skip(a4 as int).skip(",\"authors\":"@.len() as int) =~= v@.skip(a5 as int));
    }
    let (authors, a6) = match parse_string_list(v, a5) {
        None => {
            return None;
        },
        Some(t) => t,
    };
    proof {
        assert(v@.skip(a4 as int).skip((",\"authors\":"@.len() + a6 - a5) as int) =~= v@.skip(
            a6 as int,
        ));
    }
    let a7 = match expect_lit(v, a6, ",\"maintainers\":") {
        None => {
            return None;
        },
        Some(a) => a,
    };
    proof {
        assert(v@.skip(a6 as int).skip(",\"maintainers\":"@.len() as int) =~= v@.skip(a7 as int));
    }
    let (maintainers, a8) = match parse_string_list(v, a7) {
        None => {
            return None;
        },
        Some(t) => t,
    };
    let b = PackageBase { description, license, authors, maintainers };
    proof {
        assert(parse_base_fields(v@.skip(i as int)) == Some((b@, a8 - i as int)));
    }
    Some((b, a8))
}

/// Parse a whole canonical package text.
#[verifier::rlimit(100)]
pub(crate) fn parse_package_text(v: &Vec<char>) -> (r: Option<Package>)
    ensures
        r matches Some(p) ==> parse_package_json(v@) == Some(p@),
        r is None ==> parse_package_json(v@) is None,
{
    if v.len() == 0 {
        return None;
    }
    if v[0] != '{' {
        return None;
    }
    proof {
        assert(v@[0] == '{');
    }
    let a1 = match expect_lit(v, 1, "\"description\":") {
        None => {
            return None;
        },
        Some(a) => a,
    };
    proof {
        assert(v@.skip(1).skip("\"description\":"@.len() as int) =~= v@.skip(a1 as int));
    }
    let (description, a2) = match parse_string(v, a1) {
        None => {
            return None;
        },
        Some(t) => t,
    };
    proof {
        assert(v@.skip(1).skip(("\"description\":"@.len() + a2 - a1) as int) =~= v@.skip(
            a2 as int,
        ));
    }
    let a3 = match expect_lit(v, a2, ",\"license\":") {
        None => {
            return None;
        },
        Some(a) => a,
    };
    proof {
        assert(v@.skip(a2 as int).skip(",\"license\":"@.len() as int) =~= v@.skip(a3 as int));
    }
    let (license, a4) = match parse_string(v, a3) {
        None => {
            return None;
        },
        Some(t) => t,
    };
    proof {
        assert(v@.skip(a2 as int).skip((",\"license\":"@.len() + a4 - a3) as int) =~= v@.skip(
            a4 as int,
        ));
    }
    let a5 = match expect_lit(v, a4, ",\"authors\":") {
        None => {
            return None;
        },
        Some(a) => a,
    };
    proof {
        assert(v@.skip(a4 as int).skip(",\"authors\":"@.len() as int) =~= v@.skip(a5 as int));
    }
    let (authors, a6) = match parse_string_list(v, a5) {
        None => {
            return None;
        },
        Some(t) => t,
    };
    proof {
        assert(v@.skip(a4 as int).skip((",\"authors\":"@.len() + a6 - a5) as int) =~= v@.skip(
            a6 as int,
        ));
    }
    let a7 = match expect_lit(v, a6, ",\"maintainers\":") {
        None => {
            return None;
        },
        Some(a) => a,
    };
    proof {
        assert(v@.skip(a6 as int).skip(",\"maintainers\":"@.len() as int) =~= v@.skip(a7 as int));
    }
    let (maintainers, a8) = match parse_string_list(v, a7) {
        None => {
            return None;
        },
        Some(t) => t,
    };
    let ghost bv = BaseView {
        description: description@,
        license: license@,
        authors: authors.deep_view(),
        maintainers: maintainers.deep_view(),
    };
    proof {
        assert(parse_base_fields(v@.skip(1)) == Some((bv, a8 - 1 as int)));
        assert(v@.skip(1).skip((a8 - 1) as int) =~= v@.skip(a8 as int));
    }
    let a9 = match expect_lit(v, a8, ",\"version\":") {
        None => {
            return None;
        },
        Some(a) => a,
    };
    proof {
        assert(v@.skip(a8 as int).skip(",\"version\":"@.len() as int) =~= v@.skip(a9 as int));
    }
    let (version, a10) = match parse_string(v, a9) {
        None => {
            return None;
        },
        Some(t) => t,
    };
    proof {
        assert(v@.skip(a8 as int).skip((",\"version\":"@.len() + a10 - a9) as int) =~= v@.skip(
            a10 as int,
        ));
    }
    let a11 = match expect_lit(v, a10, ",\"dependencies\":") {
        None => {
            return None;
        },
        Some(a) => a,
    };
    proof {
        assert(v@.skip(a10 as int).skip(",\"dependencies\":"@.len() as int) =~= v@.skip(
            a11 as int,
        ));
    }
    let (dependencies, a12) = match parse_string_list(v, a11) {
        None => {
            return None;
        },
        Some(t) => t,
    };
    let ghost mv = ManifestView {
        base: bv,
        version: version@,
        dependencies: dependencies.deep_view(),
    };
    proof {
        assert(parse_manifest_fields(v@.skip(1)) == Some((mv, a12 - 1 as int)));
        assert(v@.skip(1 + (a12 - 1) as int) =~= v@.skip(a12 as int));
    }
    let a13 = match expect_lit(v, a12, ",\"files\":") {
        None => {
            return None;
        },
        Some(a) => a,
    };
    proof {
        assert(v@.skip(a12 as int).skip(",\"files\":"@.len() as int) =~= v@.skip(a13 as int));
    }
    let (files, a14) = match parse_files_x(v, a13) {
        None => {
            return None;
        },
        Some(t) => t,
    };
    proof {
        assert(v@.skip(a12 as int).skip((",\"files\":"@.len() + a14 - a13) as int) =~= v@.skip(
            a14 as int,
        ));
    }
    if !(a14 == v.len() - 1) {
        proof {
            assert(v@.skip(a14 as int).len() != 1);
        }
        return None;
    }
    if v[a14] != '}' {
        proof {
            assert(v@.skip(a14 as int)[0] == v@[a14 as int]);
        }
        return None;
    }
    proof {
        assert(v@.skip(a14 as int).len() == 1 && v@.skip(a14 as int)[0] == '}');
    }
    let manifest = PackageManifest {
        base: PackageBase { description, license, authors, maintainers },
        version,
        dependencies,
    };
    let p = Package { manifest, files };
    proof {
        assert(p@.manifest =~= mv);
        assert(parse_package_json(v@) == Some(p@));
    }
    Some(p)
}

/// Decode an artifact text back into the package it encodes.
pub fn decode_package(s: &str) -> (r: Result<Package, Error>)
    ensures
        r matches Ok(p) ==> decode_of(s@) == Some(p@),
        r is Err ==> decode_of(s@) is None,
        r matches Err(e) ==> e is DecodePackage,
{
    match b64_decode(s) {
        None => Err(Error::DecodePackage),
        Some(b) => match inflate_text(&b) {
            None => Err(Error::DecodePackage),
            Some(t) => {
                let v = str_to_chars(t.as_str());
                match parse_package_text(&v) {
                    None => Err(Error::DecodePackage),
                    Some(p) => Ok(p),
                }
            },
        },
    }
}

/// Encode a package into its single self-contained text artifact.
pub fn encode_package(p: &Package) -> (r: String)
    ensures
        r@ == artifact_text_of(p@),
        decode_of(r@) == Some(p@),
{
    let json = print_package(p);
    let text = chars_to_string(&json);
    let compressed = deflate_text(text.as_str());
    let out = b64_encode(&compressed);
    proof {
        lemma_parse_package_of(p@);
    }
    out
}

} // verus!
