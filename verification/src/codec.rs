//! The persisted document format: a pretty-printed JSON object with one
//! field, `references`, holding the collection in order.
//!
//! The writer emits one canonical text for every collection
//! ([`encode_spec`]); the reader ([`parse_spec`]) reads back every text the
//! writer emits, recovering the collection exactly ([`lemma_round_trip`]).
//! A text it cannot read — corrupt, truncated, or in some other layout —
//! is rejected whole, and the load path turns a rejected document into the
//! empty collection.  String values are escaped JSON strings: `\"`, `\\`,
//! `\n`, `\t`, `\r`, `\b`, `\f`, and `\u00XX` for the remaining control
//! characters.

use vstd::prelude::*;
use crate::models::{Reference, RefModel, StorageFile};

verus! {

// ---------------------------------------------------------------------------
// String escaping
// ---------------------------------------------------------------------------
/// The hexadecimal digit for `v`, lower case.
pub open spec fn hex_digit(v: int) -> char {
    if v < 10 {
        (v + 48) as char
    } else {
        (v + 87) as char
    }
}

/// The value of a lower-case hexadecimal digit.
pub open spec fn hex_val(c: char) -> Option<int> {
    let u = c as int;
    if 48 <= u && u <= 57 {
        Some(u - 48)
    } else if 97 <= u && u <= 102 {
        Some(u - 87)
    } else {
        None
    }
}

/// How one character is written inside a JSON string.
pub open spec fn esc_char(c: char) -> Seq<char> {
    if c == '"' {
        seq!['\\', '"']
    } else if c == '\\' {
        seq!['\\', '\\']
    } else if c == '\n' {
        seq!['\\', 'n']
    } else if c == '\t' {
        seq!['\\', 't']
    } else if c == '\r' {
        seq!['\\', 'r']
    } else if c == '\u{0008}' {
        seq!['\\', 'b']
    } else if c == '\u{000C}' {
        seq!['\\', 'f']
    } else if (c as u32) < 0x20 {
        seq!['\\', 'u', '0', '0', hex_digit(c as int / 16), hex_digit(c as int % 16)]
    } else {
        seq![c]
    }
}

/// A whole string value, escaped character by character.
pub open spec fn esc_str(x: Seq<char>) -> Seq<char>
    decreases x.len(),
{
    if x.len() == 0 {
        Seq::<char>::empty()
    } else {
        esc_char(x[0]) + esc_str(x.skip(1))
    }
}

/// A string token: the escaped content followed by its closing quote.  The
/// opening quote belongs to the literal text that precedes the token.
pub open spec fn tok(x: Seq<char>) -> Seq<char> {
    esc_str(x) + seq!['"']
}

// ---------------------------------------------------------------------------
// The fixed pieces of the document
// ---------------------------------------------------------------------------
pub open spec fn doc_open() -> Seq<char> {
    "{\n  \"references\": ["@
}

pub open spec fn empty_tail() -> Seq<char> {
    "]\n}"@
}

pub open spec fn refs_first() -> Seq<char> {
    "\n    "@
}

pub open spec fn refs_sep() -> Seq<char> {
    ",\n    "@
}

pub open spec fn refs_tail() -> Seq<char> {
    "\n  ]\n}"@
}

pub open spec fn f_id() -> Seq<char> {
    "{\n      \"id\": \""@
}

pub open spec fn f_name() -> Seq<char> {
    ",\n      \"referenceName\": \""@
}

pub open spec fn f_path() -> Seq<char> {
    ",\n      \"absolutePath\": \""@
}

pub open spec fn f_type() -> Seq<char> {
    ",\n      \"type\": \""@
}

pub open spec fn f_status() -> Seq<char> {
    ",\n      \"status\": \""@
}

pub open spec fn f_tags() -> Seq<char> {
    ",\n      \"tags\": ["@
}

pub open spec fn f_desc() -> Seq<char> {
    ",\n      \"description\": "@
}

pub open spec fn f_created() -> Seq<char> {
    ",\n      \"createdAt\": \""@
}

pub open spec fn f_opened() -> Seq<char> {
    ",\n      \"lastOpenedAt\": \""@
}

pub open spec fn f_pinned() -> Seq<char> {
    ",\n      \"pinned\": "@
}

pub open spec fn rec_close() -> Seq<char> {
    "\n    }"@
}

pub open spec fn tags_first() -> Seq<char> {
    "\n        \""@
}

pub open spec fn tags_sep() -> Seq<char> {
    ",\n        \""@
}

pub open spec fn tags_end() -> Seq<char> {
    "\n      ]"@
}

pub open spec fn null_lit() -> Seq<char> {
    "null"@
}

pub open spec fn true_lit() -> Seq<char> {
    "true"@
}

pub open spec fn false_lit() -> Seq<char> {
    "false"@
}

// ---------------------------------------------------------------------------
// The canonical encoding
// ---------------------------------------------------------------------------
/// The tag list from its second element on, closed by the list's tail.
pub open spec fn enc_more_tags(ts: Seq<Seq<char>>) -> Seq<char>
    decreases ts.len(),
{
    if ts.len() == 0 {
        tags_end()
    } else {
        tags_sep() + tok(ts[0]) + enc_more_tags(ts.skip(1))
    }
}

/// The tag list after its opening bracket.
pub open spec fn enc_tags(ts: Seq<Seq<char>>) -> Seq<char> {
    if ts.len() == 0 {
        seq![']']
    } else {
        tags_first() + tok(ts[0]) + enc_more_tags(ts.skip(1))
    }
}

/// The description value: `null`, or a quoted string.
pub open spec fn enc_desc(d: Option<Seq<char>>) -> Seq<char> {
    match d {
        None => null_lit(),
        Some(x) => seq!['"'] + tok(x),
    }
}

pub open spec fn enc_bool(b: bool) -> Seq<char> {
    if b {
        true_lit()
    } else {
        false_lit()
    }
}

/// One record, with its fields in fixed order.
pub open spec fn enc_ref(m: RefModel) -> Seq<char> {
    f_id() + tok(m.id) + f_name() + tok(m.name) + f_path() + tok(m.path) + f_type() + tok(m.ty)
        + f_status() + tok(m.status) + f_tags() + enc_tags(m.tags) + f_desc() + enc_desc(
        m.description,
    ) + f_created() + tok(m.created_at) + f_opened() + tok(m.last_opened_at) + f_pinned()
        + enc_bool(m.pinned) + rec_close()
}

/// The record list from its second record on, closed by the document tail.
pub open spec fn enc_more_refs(ms: Seq<RefModel>) -> Seq<char>
    decreases ms.len(),
{
    if ms.len() == 0 {
        refs_tail()
    } else {
        refs_sep() + enc_ref(ms[0]) + enc_more_refs(ms.skip(1))
    }
}

/// The whole document for a collection.
pub open spec fn encode_spec(ms: Seq<RefModel>) -> Seq<char> {
    if ms.len() == 0 {
        doc_open() + empty_tail()
    } else {
        doc_open() + refs_first() + enc_ref(ms[0]) + enc_more_refs(ms.skip(1))
    }
}

// ---------------------------------------------------------------------------
// The executable writer
// ---------------------------------------------------------------------------
/// Relies on `String`'s `FromIterator<char>` implementation: collecting
/// characters yields the string of exactly those characters, in order.
#[verifier::external_body]
fn chars_to_string(v: &Vec<char>) -> (r: String)
    ensures
        r@ == v@,
{
    v.iter().collect()
}

/// Appends the characters of a literal piece.
fn push_lit(out: &mut Vec<char>, lit: &str)
    ensures
        final(out)@ == old(out)@ + lit@,
{
    let n: usize = lit.unicode_len();
    let mut j: usize = 0;
    while j < n
        invariant
            0 <= j <= n,
            n == lit@.len(),
            out@ == old(out)@ + lit@.take(j as int),
        decreases n - j,
    {
        out.push(lit.get_char(j));
        proof {
            assert(lit@.take(j + 1) =~= lit@.take(j as int).push(lit@[j as int]));
            assert(out@ =~= old(out)@ + lit@.take(j + 1));
        }
        j = j + 1;
    }
    proof {
        assert(lit@.take(n as int) =~= lit@);
    }
}

/// The hexadecimal digit for `v`, lower case.
fn hex_digit_exec(v: u32) -> (c: char)
    requires
        v < 16,
    ensures
        c == hex_digit(v as int),
{
    let c: char = match v {
        0 => '0',
        1 => '1',
        2 => '2',
        3 => '3',
        4 => '4',
        5 => '5',
        6 => '6',
        7 => '7',
        8 => '8',
        9 => '9',
        10 => 'a',
        11 => 'b',
        12 => 'c',
        13 => 'd',
        14 => 'e',
        _ => 'f',
    };
    c
}

/// Appends the escaped form of one character.
fn push_esc_char(out: &mut Vec<char>, c: char)
    ensures
        final(out)@ == old(out)@ + esc_char(c),
{
    if c == '"' {
        out.push('\\');
        out.push('"');
    } else if c == '\\' {
        out.push('\\');
        out.push('\\');
    } else if c == '\n' {
        out.push('\\');
        out.push('n');
    } else if c == '\t' {
        out.push('\\');
        out.push('t');
    } else if c == '\r' {
        out.push('\\');
        out.push('r');
    } else if c == '\u{0008}' {
        out.push('\\');
        out.push('b');
    } else if c == '\u{000C}' {
        out.push('\\');
        out.push('f');
    } else {
        let u: u32 = c as u32;
        if u < 0x20 {
            out.push('\\');
            out.push('u');
            out.push('0');
            out.push('0');
            out.push(hex_digit_exec(u / 16));
            out.push(hex_digit_exec(u % 16));
        } else {
            out.push(c);
        }
    }
    proof {
        assert(out@ =~= old(out)@ + esc_char(c));
    }
}

proof fn lemma_esc_str_snoc(x: Seq<char>, c: char)
    ensures
        esc_str(x.push(c)) == esc_str(x) + esc_char(c),
    decreases x.len(),
{
    if x.len() == 0 {
        assert(x.push(c)[0] == c);
        assert(x.push(c).skip(1) =~= Seq::<char>::empty());
        assert(esc_str(Seq::<char>::empty()) =~= Seq::<char>::empty());
        assert(esc_str(x.push(c)) == esc_char(c) + esc_str(x.push(c).skip(1)));
        assert(esc_str(x.push(c)) =~= esc_str(x) + esc_char(c));
    } else {
        assert(x.push(c).skip(1) =~= x.skip(1).push(c));
        lemma_esc_str_snoc(x.skip(1), c);
        assert(x.push(c)[0] == x[0]);
        assert(esc_str(x) == esc_char(x[0]) + esc_str(x.skip(1)));
        assert(esc_str(x.push(c)) == esc_char(x[0]) + esc_str(x.skip(1).push(c)));
        assert(esc_str(x.push(c)) == esc_char(x[0]) + (esc_str(x.skip(1)) + esc_char(c)));
        assert(esc_str(x.push(c)) =~= esc_str(x) + esc_char(c));
    }
}

/// Appends a string token: the escaped content and the closing quote.
fn push_tok(out: &mut Vec<char>, x: &str)
    ensures
        final(out)@ == old(out)@ + tok(x@),
{
    let n: usize = x.unicode_len();
    let mut j: usize = 0;
    while j < n
        invariant
            0 <= j <= n,
            n == x@.len(),
            out@ == old(out)@ + esc_str(x@.take(j as int)),
        decreases n - j,
    {
        push_esc_char(out, x.get_char(j));
        proof {
            assert(x@.take(j + 1) =~= x@.take(j as int).push(x@[j as int]));
            lemma_esc_str_snoc(x@.take(j as int), x@[j as int]);
        }
        j = j + 1;
    }
    out.push('"');
    proof {
        assert(x@.take(n as int) =~= x@);
        assert(out@ =~= old(out)@ + tok(x@));
    }
}

/// Appends the tag list after its opening bracket.
fn push_tags(out: &mut Vec<char>, tags: &Vec<String>)
    ensures
        final(out)@ == old(out)@ + enc_tags(tags.deep_view()),
{
    let ghost ts = tags.deep_view();
    let n: usize = tags.len();
    if n == 0 {
        out.push(']');
        proof {
            assert(out@ =~= old(out)@ + enc_tags(ts));
        }
        return ;
    }
    push_lit(out, "\n        \"");
    push_tok(out, tags[0].as_str());
    let mut j: usize = 1;
    while j < n
        invariant
            1 <= j <= n,
            n == tags.len(),
            ts == tags.deep_view(),
            out@ + enc_more_tags(ts.skip(j as int)) == old(out)@ + enc_tags(ts),
        decreases n - j,
    {
        push_lit(out, ",\n        \"");
        push_tok(out, tags[j].as_str());
        proof {
            assert(ts.skip(j as int)[0] == ts[j as int]);
            assert(ts.skip(j as int).skip(1) =~= ts.skip(j + 1));
            assert(enc_more_tags(ts.skip(j as int)) == tags_sep() + tok(ts[j as int])
                + enc_more_tags(ts.skip(j + 1)));
            assert(out@ + enc_more_tags(ts.skip(j + 1)) =~= old(out)@ + enc_tags(ts));
        }
        j = j + 1;
    }
    push_lit(out, "\n      ]");
    proof {
        assert(ts.skip(n as int) =~= Seq::<Seq<char>>::empty());
        assert(enc_more_tags(ts.skip(n as int)) == tags_end());
        assert(out@ =~= old(out)@ + enc_tags(ts));
    }
}

/// Appends one record.
#[verifier::rlimit(100)]
#[verifier::spinoff_prover]
fn push_ref(out: &mut Vec<char>, r: &Reference)
    ensures
        final(out)@ == old(out)@ + enc_ref(r@),
{
    push_lit(out, "{\n      \"id\": \"");
    push_tok(out, r.id.as_str());
    push_lit(out, ",\n      \"referenceName\": \"");
    push_tok(out, r.reference_name.as_str());
    push_lit(out, ",\n      \"absolutePath\": \"");
    push_tok(out, r.absolute_path.as_str());
    push_lit(out, ",\n      \"type\": \"");
    push_tok(out, r.type_.as_str());
    push_lit(out, ",\n      \"status\": \"");
    push_tok(out, r.status.as_str());
    push_lit(out, ",\n      \"tags\": [");
    push_tags(out, &r.tags);
    push_lit(out, ",\n      \"description\": ");
    match &r.description {
        None => push_lit(out, "null"),
        Some(d) => {
            out.push('"');
            push_tok(out, d.as_str());
        },
    }
    push_lit(out, ",\n      \"createdAt\": \"");
    push_tok(out, r.created_at.as_str());
    push_lit(out, ",\n      \"lastOpenedAt\": \"");
    push_tok(out, r.last_opened_at.as_str());
    push_lit(out, ",\n      \"pinned\": ");
    if r.pinned {
        push_lit(out, "true");
    } else {
        push_lit(out, "false");
    }
    push_lit(out, "\n    }");
    proof {
        assert(out@ =~= old(out)@ + enc_ref(r@));
    }
}

/// Writes the whole document for a collection.
#[verifier::rlimit(100)]
pub fn encode_storage(f: &StorageFile) -> (r: String)
    ensures
        r@ == encode_spec(f.model()),
{
    let ghost ms = f.model();
    let mut out: Vec<char> = Vec::new();
    push_lit(&mut out, "{\n  \"references\": [");
    let n: usize = f.references.len();
    if n == 0 {
        push_lit(&mut out, "]\n}");
        proof {
            assert(out@ =~= encode_spec(ms));
        }
        return chars_to_string(&out);
    }
    push_lit(&mut out, "\n    ");
    push_ref(&mut out, &f.references[0]);
    proof {
        assert(f.references[0 as int]@ == ms[0]);
    }
    let mut j: usize = 1;
    while j < n
        invariant
            1 <= j <= n,
            n == f.references.len(),
            ms == f.model(),
            out@ + enc_more_refs(ms.skip(j as int)) == encode_spec(ms),
        decreases n - j,
    {
        push_lit(&mut out, ",\n    ");
        push_ref(&mut out, &f.references[j]);
        proof {
            assert(f.references[j as int]@ == ms[j as int]);
            assert(ms.skip(j as int)[0] == ms[j as int]);
            assert(ms.skip(j as int).skip(1) =~= ms.skip(j + 1));
            assert(enc_more_refs(ms.skip(j as int)) == refs_sep() + enc_ref(ms[j as int])
                + enc_more_refs(ms.skip(j + 1)));
            assert(out@ + enc_more_refs(ms.skip(j + 1)) =~= encode_spec(ms));
        }
        j = j + 1;
    }
    push_lit(&mut out, "\n  ]\n}");
    proof {
        assert(ms.skip(n as int) =~= Seq::<RefModel>::empty());
        assert(enc_more_refs(ms.skip(n as int)) == refs_tail());
        assert(out@ =~= encode_spec(ms));
    }
    chars_to_string(&out)
}

// ---------------------------------------------------------------------------
// The reader, as a mathematical function
// ---------------------------------------------------------------------------
/// Consumes an exact literal piece at `i`.
pub open spec fn p_lit(s: Seq<char>, i: int, lit: Seq<char>) -> Option<int> {
    if 0 <= i && i + lit.len() <= s.len() && s.subrange(i, i + lit.len()) == lit {
        Some(i + lit.len())
    } else {
        None
    }
}

/// The character a short escape stands for.
pub open spec fn esc_code(c: char) -> Option<char> {
    if c == '"' {
        Some('"')
    } else if c == '\\' {
        Some('\\')
    } else if c == '/' {
        Some('/')
    } else if c == 'n' {
        Some('\n')
    } else if c == 't' {
        Some('\t')
    } else if c == 'r' {
        Some('\r')
    } else if c == 'b' {
        Some('\u{0008}')
    } else if c == 'f' {
        Some('\u{000C}')
    } else {
        None
    }
}

/// Consumes string content up to and including the closing quote, undoing
/// the escapes of [`esc_char`].
pub open spec fn p_chars(s: Seq<char>, i: int) -> Option<(Seq<char>, int)>
    decreases s.len() - i,
{
    if i < 0 || i >= s.len() {
        None
    } else if s[i] == '"' {
        Some((Seq::<char>::empty(), i + 1))
    } else if s[i] == '\\' {
        if i + 1 >= s.len() {
            None
        } else if s[i + 1] == 'u' {
            if s.len() - i > 5 && s[i + 2] == '0' && s[i + 3] == '0' {
                match (hex_val(s[i + 4]), hex_val(s[i + 5])) {
                    (Some(a), Some(b)) => match p_chars(s, i + 6) {
                        Some((cs, j)) => Some((seq![((16 * a + b) as char)] + cs, j)),
                        None => None,
                    },
                    _ => None,
                }
            } else {
                None
            }
        } else {
            match esc_code(s[i + 1]) {
                Some(c) => match p_chars(s, i + 2) {
                    Some((cs, j)) => Some((seq![c] + cs, j)),
                    None => None,
                },
                None => None,
            }
        }
    } else if (s[i] as u32) >= 0x20 {
        match p_chars(s, i + 1) {
            Some((cs, j)) => Some((seq![s[i]] + cs, j)),
            None => None,
        }
    } else {
        None
    }
}

/// A literal piece followed by a string token.
pub open spec fn p_str_field(s: Seq<char>, i: int, lit: Seq<char>) -> Option<(Seq<char>, int)> {
    match p_lit(s, i, lit) {
        Some(j) => p_chars(s, j),
        None => None,
    }
}

/// `true` or `false`.
pub open spec fn p_bool(s: Seq<char>, i: int) -> Option<(bool, int)> {
    if i < 0 || i >= s.len() {
        None
    } else if s[i] == 't' {
        match p_lit(s, i, true_lit()) {
            Some(j) => Some((true, j)),
            None => None,
        }
    } else if s[i] == 'f' {
        match p_lit(s, i, false_lit()) {
            Some(j) => Some((false, j)),
            None => None,
        }
    } else {
        None
    }
}

/// `null`, or a quoted string.
pub open spec fn p_desc(s: Seq<char>, i: int) -> Option<(Option<Seq<char>>, int)> {
    if i < 0 || i >= s.len() {
        None
    } else if s[i] == 'n' {
        match p_lit(s, i, null_lit()) {
            Some(j) => Some((Option::<Seq<char>>::None, j)),
            None => None,
        }
    } else if s[i] == '"' {
        match p_chars(s, i + 1) {
            Some((cs, j)) => Some((Some(cs), j)),
            None => None,
        }
    } else {
        None
    }
}

/// The tag list from its second element on: separated items, then the
/// list's tail.
pub open spec fn p_more_tags(s: Seq<char>, i: int) -> Option<(Seq<Seq<char>>, int)>
    decreases s.len() - i,
{
    if i < 0 || i >= s.len() {
        None
    } else if s[i] == ',' {
        match p_lit(s, i, tags_sep()) {
            Some(j) => match p_chars(s, j) {
                Some((t, j2)) => if i < j2 <= s.len() {
                    match p_more_tags(s, j2) {
                        Some((ts, j3)) => Some((seq![t] + ts, j3)),
                        None => None,
                    }
                } else {
                    None
                },
                None => None,
            },
            None => None,
        }
    } else if s[i] == '\n' {
        match p_lit(s, i, tags_end()) {
            Some(j) => Some((Seq::<Seq<char>>::empty(), j)),
            None => None,
        }
    } else {
        None
    }
}

/// The tag list after its opening bracket.
pub open spec fn p_tags(s: Seq<char>, i: int) -> Option<(Seq<Seq<char>>, int)> {
    if i < 0 || i >= s.len() {
        None
    } else if s[i] == ']' {
        Some((Seq::<Seq<char>>::empty(), i + 1))
    } else if s[i] == '\n' {
        match p_lit(s, i, tags_first()) {
            Some(j) => match p_chars(s, j) {
                Some((t, j2)) => match p_more_tags(s, j2) {
                    Some((ts, j3)) => Some((seq![t] + ts, j3)),
                    None => None,
                },
                None => None,
            },
            None => None,
        }
    } else {
        None
    }
}

/// One record, with its fields in fixed order.
pub open spec fn p_ref(s: Seq<char>, i: int) -> Option<(RefModel, int)> {
    match p_str_field(s, i, f_id()) {
        Some((idv, a)) => match p_str_field(s, a, f_name()) {
            Some((namev, b)) => match p_str_field(s, b, f_path()) {
                Some((pathv, c)) => match p_str_field(s, c, f_type()) {
                    Some((tyv, d)) => match p_str_field(s, d, f_status()) {
                        Some((stv, e)) => match p_lit(s, e, f_tags()) {
                            Some(g0) => match p_tags(s, g0) {
                                Some((tsv, g)) => match p_lit(s, g, f_desc()) {
                                    Some(h0) => match p_desc(s, h0) {
                                        Some((dv, h)) => match p_str_field(s, h, f_created()) {
                                            Some((crv, ii)) => match p_str_field(
                                                s,
                                                ii,
                                                f_opened(),
                                            ) {
                                                Some((opv, jj)) => match p_lit(s, jj, f_pinned()) {
                                                    Some(k0) => match p_bool(s, k0) {
                                                        Some((pv, k)) => match p_lit(
                                                            s,
                                                            k,
                                                            rec_close(),
                                                        ) {
                                                            Some(z) => Some(
                                                                (
                                                                    RefModel {
                                                                        id: idv,
                                                                        name: namev,
                                                                        path: pathv,
                                                                        ty: tyv,
                                                                        status: stv,
                                                                        tags: tsv,
                                                                        description: dv,
                                                                        created_at: crv,
                                                                        last_opened_at: opv,
                                                                        pinned: pv,
                                                                    },
                                                                    z,
                                                                ),
                                                            ),
                                                            None => None,
                                                        },
                                                        None => None,
                                                    },
                                                    None => None,
                                                },
                                                None => None,
                                            },
                                            None => None,
                                        },
                                        None => None,
                                    },
                                    None => None,
                                },
                                None => None,
                            },
                            None => None,
                        },
                        None => None,
                    },
                    None => None,
                },
                None => None,
            },
            None => None,
        },
        None => None,
    }
}

/// The record list from its second record on, closed by the document tail,
/// which must end the input.
pub open spec fn p_more_refs(s: Seq<char>, i: int) -> Option<(Seq<RefModel>, int)>
    decreases s.len() - i,
{
    if i < 0 || i >= s.len() {
        None
    } else if s[i] == ',' {
        match p_lit(s, i, refs_sep()) {
            Some(j) => match p_ref(s, j) {
                Some((m, j2)) => if i < j2 <= s.len() {
                    match p_more_refs(s, j2) {
                        Some((ms, j3)) => Some((seq![m] + ms, j3)),
                        None => None,
                    }
                } else {
                    None
                },
                None => None,
            },
            None => None,
        }
    } else if s[i] == '\n' {
        match p_lit(s, i, refs_tail()) {
            Some(j) => if j == s.len() {
                Some((Seq::<RefModel>::empty(), j))
            } else {
                None
            },
            None => None,
        }
    } else {
        None
    }
}

// ---------------------------------------------------------------------------
// Reading back what was written
// ---------------------------------------------------------------------------
proof fn lemma_chop(s: Seq<char>, i: int, a: Seq<char>, b: Seq<char>)
    requires
        0 <= i <= s.len(),
        s.skip(i) == a + b,
    ensures
        i + a.len() <= s.len(),
        s.skip(i + a.len()) == b,
{
    assert(s.skip(i).len() == s.len() - i);
    assert forall|t: int| 0 <= t < b.len() implies s.skip(i + a.len())[t] == b[t] by {
        assert(s.skip(i)[a.len() + t] == b[t]);
        assert(s.skip(i)[a.len() + t] == s[i + a.len() + t]);
        assert(s.skip(i + a.len())[t] == s[i + a.len() + t]);
    }
    assert(s.skip(i + a.len()) =~= b);
}

proof fn lemma_first_char(s: Seq<char>, i: int, a: Seq<char>, b: Seq<char>)
    requires
        0 <= i <= s.len(),
        s.skip(i) == a + b,
        a.len() > 0,
    ensures
        i < s.len(),
        s[i] == a[0],
{
    assert(s.skip(i).len() == s.len() - i);
    assert(s.skip(i)[0] == s[i]);
    assert((a + b)[0] == a[0]);
}

proof fn lemma_add_assoc(a: Seq<char>, b: Seq<char>, c: Seq<char>)
    ensures
        (a + b) + c == a + (b + c),
{
    assert((a + b) + c =~= a + (b + c));
}

proof fn lemma_u_escape(c: char)
    requires
        (c as u32) < 0x20,
    ensures
        0 <= (c as int) && (c as int) < 32,
        hex_val(hex_digit(c as int / 16)) == Some(c as int / 16),
        hex_val(hex_digit(c as int % 16)) == Some(c as int % 16),
        16 * (c as int / 16) + c as int % 16 == c as int,
        ((16 * (c as int / 16) + c as int % 16) as char) == c,
{
    lemma_hex_val_digit(c as int / 16);
    lemma_hex_val_digit(c as int % 16);
}

proof fn lemma_p_lit(s: Seq<char>, i: int, lit: Seq<char>, rest: Seq<char>)
    requires
        0 <= i <= s.len(),
        s.skip(i) == lit + rest,
    ensures
        p_lit(s, i, lit) == Some(i + lit.len()),
        i + lit.len() <= s.len(),
        s.skip(i + lit.len()) == rest,
{
    lemma_chop(s, i, lit, rest);
    assert(s.subrange(i, i + lit.len()) =~= lit);
}

proof fn lemma_hex_val_digit(v: int)
    requires
        0 <= v < 16,
    ensures
        hex_val(hex_digit(v)) == Some(v),
{
}

/// A string token written by the writer reads back as its content.
proof fn lemma_p_chars(s: Seq<char>, i: int, x: Seq<char>, rest: Seq<char>)
    requires
        0 <= i <= s.len(),
        s.skip(i) == tok(x) + rest,
    ensures
        p_chars(s, i) == Some((x, i + tok(x).len())),
        i + tok(x).len() <= s.len(),
        s.skip(i + tok(x).len()) == rest,
    decreases x.len(),
{
    lemma_chop(s, i, tok(x), rest);
    if x.len() == 0 {
        assert(tok(x) =~= seq!['"']);
        lemma_first_char(s, i, tok(x), rest);
        assert(s[i] == '"');
        assert(p_chars(s, i) == Some((Seq::<char>::empty(), i + 1)));
        assert(x =~= Seq::<char>::empty());
    } else {
        let c = x[0];
        let x1 = x.skip(1);
        assert(esc_str(x) == esc_char(c) + esc_str(x1));
        assert(tok(x) + rest =~= esc_char(c) + (tok(x1) + rest));
        lemma_chop(s, i, esc_char(c), tok(x1) + rest);
        let i1 = i + esc_char(c).len();
        assert forall|t: int| 0 <= t < esc_char(c).len() implies s[i + t] == #[trigger] esc_char(
            c,
        )[t] by {
            assert(s.skip(i)[t] == (esc_char(c) + (tok(x1) + rest))[t]);
            assert(s.skip(i)[t] == s[i + t]);
        }
        lemma_p_chars(s, i1, x1, rest);
        if c == '"' || c == '\\' {
            assert(s[i] == '\\');
            assert(esc_code(s[i + 1]) == Some(c));
            assert(p_chars(s, i) == Some((seq![c] + x1, i1 + tok(x1).len())));
        } else if c == '\n' || c == '\t' || c == '\r' || c == '\u{0008}' || c == '\u{000C}' {
            assert(s[i] == '\\');
            assert(s[i + 1] != 'u');
            assert(esc_code(s[i + 1]) == Some(c));
            assert(p_chars(s, i) == Some((seq![c] + x1, i1 + tok(x1).len())));
        } else if (c as u32) < 0x20 {
            assert(s[i] == '\\');
            assert(s[i + 1] == 'u');
            assert(s[i + 2] == '0');
            assert(s[i + 3] == '0');
            assert(s[i + 4] == hex_digit(c as int / 16));
            assert(s[i + 5] == hex_digit(c as int % 16));
            lemma_u_escape(c);
            assert(p_chars(s, i) == Some((seq![c] + x1, i1 + tok(x1).len())));
        } else {
            assert(esc_char(c) =~= seq![c]);
            assert(esc_char(c)[0] == c);
            assert(s[i + 0] == esc_char(c)[0]);
            assert(s[i] == c);
            assert(c != '"' && c != '\\' && (c as u32) >= 0x20);
            assert(p_chars(s, i) == Some((seq![c] + x1, i1 + tok(x1).len())));
        }
        assert(seq![c] + x1 =~= x);
    }
}

proof fn lemma_p_str_field(s: Seq<char>, i: int, lit: Seq<char>, x: Seq<char>, rest: Seq<char>)
    requires
        0 <= i <= s.len(),
        s.skip(i) == lit + (tok(x) + rest),
    ensures
        p_str_field(s, i, lit) == Some((x, i + lit.len() + tok(x).len())),
        i + lit.len() + tok(x).len() <= s.len(),
        s.skip(i + lit.len() + tok(x).len()) == rest,
{
    lemma_p_lit(s, i, lit, tok(x) + rest);
    lemma_p_chars(s, i + lit.len(), x, rest);
}

proof fn lemma_p_more_tags(s: Seq<char>, i: int, ts: Seq<Seq<char>>, rest: Seq<char>)
    requires
        0 <= i <= s.len(),
        s.skip(i) == enc_more_tags(ts) + rest,
    ensures
        p_more_tags(s, i) == Some((ts, i + enc_more_tags(ts).len())),
        i + enc_more_tags(ts).len() <= s.len(),
        s.skip(i + enc_more_tags(ts).len()) == rest,
    decreases ts.len(),
{
    if ts.len() == 0 {
        reveal_strlit("\n      ]");
        lemma_first_char(s, i, tags_end(), rest);
        assert(s[i] == '\n');
        lemma_p_lit(s, i, tags_end(), rest);
    } else {
        reveal_strlit(",\n        \"");
        assert(s.skip(i) =~= tags_sep() + (tok(ts[0]) + (enc_more_tags(ts.skip(1)) + rest)));
        lemma_first_char(s, i, tags_sep(), tok(ts[0]) + (enc_more_tags(ts.skip(1)) + rest));
        assert(s[i] == ',');
        lemma_p_lit(s, i, tags_sep(), tok(ts[0]) + (enc_more_tags(ts.skip(1)) + rest));
        let j = i + tags_sep().len();
        lemma_p_chars(s, j, ts[0], enc_more_tags(ts.skip(1)) + rest);
        let j2 = j + tok(ts[0]).len();
        assert(i < j2 <= s.len());
        lemma_p_more_tags(s, j2, ts.skip(1), rest);
        assert(seq![ts[0]] + ts.skip(1) =~= ts);
        assert(enc_more_tags(ts).len() == tags_sep().len() + tok(ts[0]).len() + enc_more_tags(
            ts.skip(1),
        ).len());
    }
}

proof fn lemma_p_tags(s: Seq<char>, i: int, ts: Seq<Seq<char>>, rest: Seq<char>)
    requires
        0 <= i <= s.len(),
        s.skip(i) == enc_tags(ts) + rest,
    ensures
        p_tags(s, i) == Some((ts, i + enc_tags(ts).len())),
        i + enc_tags(ts).len() <= s.len(),
        s.skip(i + enc_tags(ts).len()) == rest,
{
    if ts.len() == 0 {
        lemma_chop(s, i, enc_tags(ts), rest);
        assert(enc_tags(ts) =~= seq![']']);
        lemma_first_char(s, i, enc_tags(ts), rest);
        assert(s[i] == ']');
        assert(ts =~= Seq::<Seq<char>>::empty());
    } else {
        reveal_strlit("\n        \"");
        assert(s.skip(i) =~= tags_first() + (tok(ts[0]) + (enc_more_tags(ts.skip(1)) + rest)));
        lemma_first_char(s, i, tags_first(), tok(ts[0]) + (enc_more_tags(ts.skip(1)) + rest));
        assert(s[i] == '\n');
        lemma_p_lit(s, i, tags_first(), tok(ts[0]) + (enc_more_tags(ts.skip(1)) + rest));
        let j = i + tags_first().len();
        lemma_p_chars(s, j, ts[0], enc_more_tags(ts.skip(1)) + rest);
        let j2 = j + tok(ts[0]).len();
        lemma_p_more_tags(s, j2, ts.skip(1), rest);
        assert(seq![ts[0]] + ts.skip(1) =~= ts);
        assert(enc_tags(ts).len() == tags_first().len() + tok(ts[0]).len() + enc_more_tags(
            ts.skip(1),
        ).len());
    }
}

proof fn lemma_p_desc(s: Seq<char>, i: int, d: Option<Seq<char>>, rest: Seq<char>)
    requires
        0 <= i <= s.len(),
        s.skip(i) == enc_desc(d) + rest,
    ensures
        p_desc(s, i) == Some((d, i + enc_desc(d).len())),
        i + enc_desc(d).len() <= s.len(),
        s.skip(i + enc_desc(d).len()) == rest,
{
    match d {
        None => {
            reveal_strlit("null");
            lemma_first_char(s, i, null_lit(), rest);
            assert(s[i] == 'n');
            lemma_p_lit(s, i, null_lit(), rest);
        },
        Some(x) => {
            assert(s.skip(i) =~= seq!['"'] + (tok(x) + rest));
            lemma_first_char(s, i, seq!['"'], tok(x) + rest);
            lemma_chop(s, i, seq!['"'], tok(x) + rest);
            assert(s[i] == '"');
            reveal_strlit("null");
            assert(s[i] != 'n');
            lemma_p_chars(s, i + 1, x, rest);
        },
    }
}

proof fn lemma_p_bool(s: Seq<char>, i: int, b: bool, rest: Seq<char>)
    requires
        0 <= i <= s.len(),
        s.skip(i) == enc_bool(b) + rest,
    ensures
        p_bool(s, i) == Some((b, i + enc_bool(b).len())),
        i + enc_bool(b).len() <= s.len(),
        s.skip(i + enc_bool(b).len()) == rest,
{
    reveal_strlit("true");
    reveal_strlit("false");
    if b {
        lemma_first_char(s, i, true_lit(), rest);
        assert(s[i] == 't');
        lemma_p_lit(s, i, true_lit(), rest);
    } else {
        lemma_first_char(s, i, false_lit(), rest);
        assert(s[i] == 'f');
        lemma_p_lit(s, i, false_lit(), rest);
    }
}

/// A record written by the writer reads back as itself.
#[verifier::rlimit(100)]
#[verifier::spinoff_prover]
proof fn lemma_p_ref(s: Seq<char>, i: int, m: RefModel, rest: Seq<char>)
    requires
        0 <= i <= s.len(),
        s.skip(i) == enc_ref(m) + rest,
    ensures
        p_ref(s, i) == Some((m, i + enc_ref(m).len())),
        i + enc_ref(m).len() <= s.len(),
        s.skip(i + enc_ref(m).len()) == rest,
{
    let r22 = rest;
    let r21 = rec_close() + r22;
    let r20 = enc_bool(m.pinned) + r21;
    let r19 = f_pinned() + r20;
    let r18 = tok(m.last_opened_at) + r19;
    let r17 = f_opened() + r18;
    let r16 = tok(m.created_at) + r17;
    let r15 = f_created() + r16;
    let r14 = enc_desc(m.description) + r15;
    let r13 = f_desc() + r14;
    let r12 = enc_tags(m.tags) + r13;
    let r11 = f_tags() + r12;
    let r10 = tok(m.status) + r11;
    let r9 = f_status() + r10;
    let r8 = tok(m.ty) + r9;
    let r7 = f_type() + r8;
    let r6 = tok(m.path) + r7;
    let r5 = f_path() + r6;
    let r4 = tok(m.name) + r5;
    let r3 = f_name() + r4;
    let r2 = tok(m.id) + r3;
    let l2 = f_id() + tok(m.id);
    let l3 = l2 + f_name();
    let l4 = l3 + tok(m.name);
    let l5 = l4 + f_path();
    let l6 = l5 + tok(m.path);
    let l7 = l6 + f_type();
    let l8 = l7 + tok(m.ty);
    let l9 = l8 + f_status();
    let l10 = l9 + tok(m.status);
    let l11 = l10 + f_tags();
    let l12 = l11 + enc_tags(m.tags);
    let l13 = l12 + f_desc();
    let l14 = l13 + enc_desc(m.description);
    let l15 = l14 + f_created();
    let l16 = l15 + tok(m.created_at);
    let l17 = l16 + f_opened();
    let l18 = l17 + tok(m.last_opened_at);
    let l19 = l18 + f_pinned();
    let l20 = l19 + enc_bool(m.pinned);
    let l21 = l20 + rec_close();
    assert(enc_ref(m) == l21);
    lemma_add_assoc(l20, rec_close(), r22);
    lemma_add_assoc(l19, enc_bool(m.pinned), r21);
    lemma_add_assoc(l18, f_pinned(), r20);
    lemma_add_assoc(l17, tok(m.last_opened_at), r19);
    lemma_add_assoc(l16, f_opened(), r18);
    lemma_add_assoc(l15, tok(m.created_at), r17);
    lemma_add_assoc(l14, f_created(), r16);
    lemma_add_assoc(l13, enc_desc(m.description), r15);
    lemma_add_assoc(l12, f_desc(), r14);
    lemma_add_assoc(l11, enc_tags(m.tags), r13);
    lemma_add_assoc(l10, f_tags(), r12);
    lemma_add_assoc(l9, tok(m.status), r11);
    lemma_add_assoc(l8, f_status(), r10);
    lemma_add_assoc(l7, tok(m.ty), r9);
    lemma_add_assoc(l6, f_type(), r8);
    lemma_add_assoc(l5, tok(m.path), r7);
    lemma_add_assoc(l4, f_path(), r6);
    lemma_add_assoc(l3, tok(m.name), r5);
    lemma_add_assoc(l2, f_name(), r4);
    lemma_add_assoc(f_id(), tok(m.id), r3);
    assert(s.skip(i) == f_id() + r2);
    lemma_p_str_field(s, i, f_id(), m.id, r3);
    let a1 = i + f_id().len() + tok(m.id).len();
    lemma_p_str_field(s, a1, f_name(), m.name, r5);
    let a2 = a1 + f_name().len() + tok(m.name).len();
    lemma_p_str_field(s, a2, f_path(), m.path, r7);
    let a3 = a2 + f_path().len() + tok(m.path).len();
    lemma_p_str_field(s, a3, f_type(), m.ty, r9);
    let a4 = a3 + f_type().len() + tok(m.ty).len();
    lemma_p_str_field(s, a4, f_status(), m.status, r11);
    let a5 = a4 + f_status().len() + tok(m.status).len();
    lemma_p_lit(s, a5, f_tags(), r12);
    let a6 = a5 + f_tags().len();
    lemma_p_tags(s, a6, m.tags, r13);
    let a7 = a6 + enc_tags(m.tags).len();
    lemma_p_lit(s, a7, f_desc(), r14);
    let a8 = a7 + f_desc().len();
    lemma_p_desc(s, a8, m.description, r15);
    let a9 = a8 + enc_desc(m.description).len();
    lemma_p_str_field(s, a9, f_created(), m.created_at, r17);
    let a10 = a9 + f_created().len() + tok(m.created_at).len();
    lemma_p_str_field(s, a10, f_opened(), m.last_opened_at, r19);
    let a11 = a10 + f_opened().len() + tok(m.last_opened_at).len();
    lemma_p_lit(s, a11, f_pinned(), r20);
    let a12 = a11 + f_pinned().len();
    lemma_p_bool(s, a12, m.pinned, r21);
    let a13 = a12 + enc_bool(m.pinned).len();
    lemma_p_lit(s, a13, rec_close(), r22);
    let a14 = a13 + rec_close().len();
    assert(p_ref(s, i) == Some((m, a14)));
    assert(a14 == i + enc_ref(m).len());
}

#[verifier::rlimit(100)]
#[verifier::spinoff_prover]
proof fn lemma_p_more_refs(s: Seq<char>, i: int, ms: Seq<RefModel>)
    requires
        0 <= i <= s.len(),
        s.skip(i) == enc_more_refs(ms),
    ensures
        p_more_refs(s, i) == Some((ms, s.len() as int)),
    decreases ms.len(),
{
    if ms.len() == 0 {
        reveal_strlit("\n  ]\n}");
        assert(s.skip(i) =~= refs_tail() + Seq::<char>::empty());
        lemma_first_char(s, i, refs_tail(), Seq::<char>::empty());
        assert(s[i] == '\n');
        lemma_p_lit(s, i, refs_tail(), Seq::<char>::empty());
        assert(i + refs_tail().len() == s.len());
    } else {
        reveal_strlit(",\n    ");
        assert(s.skip(i) =~= refs_sep() + (enc_ref(ms[0]) + enc_more_refs(ms.skip(1))));
        lemma_first_char(s, i, refs_sep(), enc_ref(ms[0]) + enc_more_refs(ms.skip(1)));
        assert(s[i] == ',');
        lemma_p_lit(s, i, refs_sep(), enc_ref(ms[0]) + enc_more_refs(ms.skip(1)));
        let j = i + refs_sep().len();
        lemma_p_ref(s, j, ms[0], enc_more_refs(ms.skip(1)));
        let j2 = j + enc_ref(ms[0]).len();
        assert(i < j2 <= s.len());
        lemma_p_more_refs(s, j2, ms.skip(1));
        assert(seq![ms[0]] + ms.skip(1) =~= ms);
    }
}

proof fn lemma_round_trip_empty(ms: Seq<RefModel>)
    requires
        ms.len() == 0,
    ensures
        parse_spec(encode_spec(ms)) == Some(ms),
{
    let s = encode_spec(ms);
    assert(s.skip(0) =~= s);
    reveal_strlit("]\n}");
    assert(s.skip(0) =~= doc_open() + (empty_tail() + Seq::<char>::empty()));
    lemma_p_lit(s, 0, doc_open(), empty_tail() + Seq::<char>::empty());
    let j: int = doc_open().len() as int;
    lemma_first_char(s, j, empty_tail(), Seq::<char>::empty());
    assert(s[j] == ']');
    assert(s.skip(j) =~= empty_tail() + Seq::<char>::empty());
    lemma_p_lit(s, j, empty_tail(), Seq::<char>::empty());
    assert(j + empty_tail().len() == s.len());
    assert(ms =~= Seq::<RefModel>::empty());
}

#[verifier::rlimit(100)]
#[verifier::spinoff_prover]
proof fn lemma_round_trip_some(ms: Seq<RefModel>)
    requires
        ms.len() > 0,
    ensures
        parse_spec(encode_spec(ms)) == Some(ms),
{
    let s = encode_spec(ms);
    assert(s.skip(0) =~= s);
    {
        reveal_strlit("\n    ");
        reveal_strlit("]\n}");
        lemma_add_assoc(doc_open() + refs_first(), enc_ref(ms[0]), enc_more_refs(ms.skip(1)));
        lemma_add_assoc(doc_open(), refs_first(), enc_ref(ms[0]) + enc_more_refs(ms.skip(1)));
        assert(s.skip(0) == doc_open() + (refs_first() + (enc_ref(ms[0]) + enc_more_refs(
            ms.skip(1),
        ))));
        lemma_p_lit(s, 0, doc_open(), refs_first() + (enc_ref(ms[0]) + enc_more_refs(ms.skip(1))));
        let j: int = doc_open().len() as int;
        lemma_first_char(s, j, refs_first(), enc_ref(ms[0]) + enc_more_refs(ms.skip(1)));
        assert(s[j] == '\n');
        assert(s[j] != ']');
        lemma_p_lit(s, j, refs_first(), enc_ref(ms[0]) + enc_more_refs(ms.skip(1)));
        let j2 = j + refs_first().len();
        lemma_p_ref(s, j2, ms[0], enc_more_refs(ms.skip(1)));
        let j3 = j2 + enc_ref(ms[0]).len();
        lemma_p_more_refs(s, j3, ms.skip(1));
        assert(seq![ms[0]] + ms.skip(1) =~= ms);
    }
}

/// Law: reading back a written document yields exactly the collection that
/// was written -- every field equal, in the same order.
pub proof fn lemma_round_trip(ms: Seq<RefModel>)
    ensures
        parse_spec(encode_spec(ms)) == Some(ms),
{
    if ms.len() == 0 {
        lemma_round_trip_empty(ms);
    } else {
        lemma_round_trip_some(ms);
    }
}

/// The whole document.  `None` stands for a text the store did not write.
pub open spec fn parse_spec(s: Seq<char>) -> Option<Seq<RefModel>> {
    match p_lit(s, 0, doc_open()) {
        Some(j) => if j >= s.len() {
            None
        } else if s[j] == ']' {
            match p_lit(s, j, empty_tail()) {
                Some(j2) => if j2 == s.len() {
                    Some(Seq::<RefModel>::empty())
                } else {
                    None
                },
                None => None,
            }
        } else if s[j] == '\n' {
            match p_lit(s, j, refs_first()) {
                Some(j2) => match p_ref(s, j2) {
                    Some((m, j3)) => match p_more_refs(s, j3) {
                        Some((ms, _)) => Some(seq![m] + ms),
                        None => None,
                    },
                    None => None,
                },
                None => None,
            }
        } else {
            None
        },
        None => None,
    }
}

// ---------------------------------------------------------------------------
// The executable reader
// ---------------------------------------------------------------------------
/// The characters of a string, in order.
fn str_chars(s: &str) -> (r: Vec<char>)
    ensures
        r@ == s@,
{
    let n: usize = s.unicode_len();
    let mut r: Vec<char> = Vec::new();
    let mut i: usize = 0;
    while i < n
        invariant
            0 <= i <= n,
            n == s@.len(),
            r@ == s@.take(i as int),
        decreases n - i,
    {
        r.push(s.get_char(i));
        proof {
            assert(s@.take(i + 1) =~= s@.take(i as int).push(s@[i as int]));
        }
        i = i + 1;
    }
    proof {
        assert(s@.take(n as int) =~= s@);
    }
    r
}

/// Decides [`hex_val`].
fn hex_val_exec(c: char) -> (r: Option<u32>)
    ensures
        match r {
            Some(v) => hex_val(c) == Some(v as int) && v < 16,
            None => hex_val(c) is None,
        },
{
    let u: u32 = c as u32;
    if 48 <= u && u <= 57 {
        Some(u - 48)
    } else if 97 <= u && u <= 102 {
        Some(u - 87)
    } else {
        None
    }
}

/// Decides [`esc_code`].
fn esc_code_exec(c: char) -> (r: Option<char>)
    ensures
        r == esc_code(c),
{
    if c == '"' {
        Some('"')
    } else if c == '\\' {
        Some('\\')
    } else if c == '/' {
        Some('/')
    } else if c == 'n' {
        Some('\n')
    } else if c == 't' {
        Some('\t')
    } else if c == 'r' {
        Some('\r')
    } else if c == 'b' {
        Some('\u{0008}')
    } else if c == 'f' {
        Some('\u{000C}')
    } else {
        None
    }
}

/// Decides [`p_lit`].
fn expect_lit(s: &Vec<char>, i: usize, lit: &str) -> (r: Option<usize>)
    ensures
        match r {
            Some(j) => p_lit(s@, i as int, lit@) == Some(j as int) && i <= j <= s.len(),
            None => p_lit(s@, i as int, lit@) is None,
        },
{
    let n: usize = lit.unicode_len();
    if s.len() < n || i > s.len() - n {
        proof {
            assert(i + lit@.len() > s@.len());
        }
        return None;
    }
    let mut j: usize = 0;
    while j < n
        invariant
            0 <= j <= n,
            n == lit@.len(),
            i + n <= s@.len(),
            s@.len() <= usize::MAX,
            forall|t: int| 0 <= t < j ==> s@[i + t] == lit@[t],
        decreases n - j,
    {
        if s[i + j] != lit.get_char(j) {
            proof {
                if p_lit(s@, i as int, lit@) is Some {
                    assert(s@.subrange(i as int, i + lit@.len()) == lit@);
                    assert(s@.subrange(i as int, i + lit@.len())[j as int] == lit@[j as int]);
                }
            }
            return None;
        }
        j = j + 1;
    }
    proof {
        assert(s@.subrange(i as int, i + n) =~= lit@);
    }
    Some(i + n)
}

/// Decides [`p_chars`], returning the unescaped content.
#[verifier::rlimit(100)]
#[verifier::spinoff_prover]
fn parse_string(s: &Vec<char>, start: usize) -> (r: Option<(String, usize)>)
    ensures
        match r {
            Some(p) => p_chars(s@, start as int) == Some((p.0@, p.1 as int)) && start < p.1
                <= s.len(),
            None => p_chars(s@, start as int) is None,
        },
{
    if start >= s.len() {
        return None;
    }
    let mut acc: Vec<char> = Vec::new();
    let mut i: usize = start;
    loop
        invariant
            start <= i <= s@.len(),
            match p_chars(s@, i as int) {
                Some(p) => p_chars(s@, start as int) == Some((acc@ + p.0, p.1)),
                None => p_chars(s@, start as int) is None,
            },
        decreases s@.len() - i,
    {
        if i >= s.len() {
            return None;
        }
        let ghost acc_old = acc@;
        let ghost i_old = i as int;
        let c = s[i];
        if c == '"' {
            proof {
                assert(p_chars(s@, i_old) == Some((Seq::<char>::empty(), i_old + 1)));
                assert(acc@ + Seq::<char>::empty() =~= acc@);
            }
            let res = chars_to_string(&acc);
            return Some((res, i + 1));
        } else if c == '\\' {
            if i + 1 >= s.len() {
                return None;
            }
            let c2 = s[i + 1];
            if c2 == 'u' {
                if s.len() - i <= 5 {
                    return None;
                }
                if s[i + 2] != '0' || s[i + 3] != '0' {
                    return None;
                }
                let h1 = hex_val_exec(s[i + 4]);
                let h2 = hex_val_exec(s[i + 5]);
                match (h1, h2) {
                    (Some(a), Some(b)) => {
                        let v: u32 = 16 * a + b;
                        let ch: char = (v as u8) as char;
                        proof {
                            assert(v < 256);
                            assert((v as u8) as u32 == v);
                            assert(ch as u32 == v);
                        }
                        acc.push(ch);
                        i = i + 6;
                        proof {
                            assert(acc@ =~= acc_old.push(ch));
                            if p_chars(s@, i as int) is Some {
                                let (cs, jj) = p_chars(s@, i as int).unwrap();
                                assert(p_chars(s@, i_old) == Some((seq![ch] + cs, jj)));
                                assert(acc_old + (seq![ch] + cs) =~= acc@ + cs);
                            } else {
                                assert(p_chars(s@, i_old) is None);
                            }
                        }
                    },
                    _ => {
                        return None;
                    },
                }
            } else {
                match esc_code_exec(c2) {
                    Some(e) => {
                        acc.push(e);
                        i = i + 2;
                        proof {
                            assert(acc@ =~= acc_old.push(e));
                            if p_chars(s@, i as int) is Some {
                                let (cs, jj) = p_chars(s@, i as int).unwrap();
                                assert(p_chars(s@, i_old) == Some((seq![e] + cs, jj)));
                                assert(acc_old + (seq![e] + cs) =~= acc@ + cs);
                            } else {
                                assert(p_chars(s@, i_old) is None);
                            }
                        }
                    },
                    None => {
                        return None;
                    },
                }
            }
        } else {
            let u: u32 = c as u32;
            if u >= 0x20 {
                acc.push(c);
                i = i + 1;
                proof {
                    assert(acc@ =~= acc_old.push(c));
                    if p_chars(s@, i as int) is Some {
                        let (cs, jj) = p_chars(s@, i as int).unwrap();
                        assert(p_chars(s@, i_old) == Some((seq![c] + cs, jj)));
                        assert(acc_old + (seq![c] + cs) =~= acc@ + cs);
                    } else {
                        assert(p_chars(s@, i_old) is None);
                    }
                }
            } else {
                return None;
            }
        }
    }
}

/// Decides [`p_bool`].
fn parse_bool(s: &Vec<char>, start: usize) -> (r: Option<(bool, usize)>)
    ensures
        match r {
            Some(p) => p_bool(s@, start as int) == Some((p.0, p.1 as int)) && start <= p.1
                <= s.len(),
            None => p_bool(s@, start as int) is None,
        },
{
    if start >= s.len() {
        return None;
    }
    let c = s[start];
    if c == 't' {
        match expect_lit(s, start, "true") {
            Some(j) => Some((true, j)),
            None => None,
        }
    } else if c == 'f' {
        match expect_lit(s, start, "false") {
            Some(j) => Some((false, j)),
            None => None,
        }
    } else {
        None
    }
}

/// Decides [`p_desc`].
fn parse_desc(s: &Vec<char>, start: usize) -> (r: Option<(Option<String>, usize)>)
    ensures
        match r {
            Some(p) => p_desc(s@, start as int) == Some((p.0.deep_view(), p.1 as int)) && start
                <= p.1 <= s.len(),
            None => p_desc(s@, start as int) is None,
        },
{
    if start >= s.len() {
        return None;
    }
    let c = s[start];
    if c == 'n' {
        match expect_lit(s, start, "null") {
            Some(j) => Some((None, j)),
            None => None,
        }
    } else if c == '"' {
        match parse_string(s, start + 1) {
            Some((d, j)) => Some((Some(d), j)),
            None => None,
        }
    } else {
        None
    }
}

/// Decides [`p_tags`].
fn parse_tags(s: &Vec<char>, start: usize) -> (r: Option<(Vec<String>, usize)>)
    ensures
        match r {
            Some(p) => p_tags(s@, start as int) == Some((p.0.deep_view(), p.1 as int)) && start
                < p.1 <= s.len(),
            None => p_tags(s@, start as int) is None,
        },
{
    if start >= s.len() {
        return None;
    }
    let c = s[start];
    if c == ']' {
        let out: Vec<String> = Vec::new();
        proof {
            assert(out.deep_view() =~= Seq::<Seq<char>>::empty());
        }
        return Some((out, start + 1));
    }
    if c != '\n' {
        return None;
    }
    let j = match expect_lit(s, start, "\n        \"") {
        Some(j) => j,
        None => {
            return None;
        },
    };
    let (t0, j2) = match parse_string(s, j) {
        Some(p) => p,
        None => {
            return None;
        },
    };
    let mut out: Vec<String> = Vec::new();
    out.push(t0);
    let mut i: usize = j2;
    loop
        invariant
            start < i <= s@.len(),
            out.len() >= 1,
            match p_more_tags(s@, i as int) {
                Some(p) => p_tags(s@, start as int) == Some((out.deep_view() + p.0, p.1)),
                None => p_tags(s@, start as int) is None,
            },
        decreases s@.len() - i,
    {
        if i >= s.len() {
            return None;
        }
        let ghost out_old = out.deep_view();
        let ghost i_old = i as int;
        let c2 = s[i];
        if c2 == ',' {
            let j4 = match expect_lit(s, i, ",\n        \"") {
                Some(x) => x,
                None => {
                    return None;
                },
            };
            let (tk, j5) = match parse_string(s, j4) {
                Some(p) => p,
                None => {
                    return None;
                },
            };
            out.push(tk);
            i = j5;
            proof {
                assert(out.deep_view() =~= out_old.push(tk@));
                if p_more_tags(s@, i as int) is Some {
                    let (ts, jj) = p_more_tags(s@, i as int).unwrap();
                    assert(p_more_tags(s@, i_old) == Some((seq![tk@] + ts, jj)));
                    assert(out_old + (seq![tk@] + ts) =~= out.deep_view() + ts);
                } else {
                    assert(p_more_tags(s@, i_old) is None);
                }
            }
        } else if c2 == '\n' {
            let j4 = match expect_lit(s, i, "\n      ]") {
                Some(x) => x,
                None => {
                    return None;
                },
            };
            proof {
                assert(p_more_tags(s@, i_old) == Some(
                    (Seq::<Seq<char>>::empty(), j4 as int),
                ));
                assert(out.deep_view() + Seq::<Seq<char>>::empty() =~= out.deep_view());
            }
            return Some((out, j4));
        } else {
            return None;
        }
    }
}

/// Decides [`p_ref`], returning the record.
#[verifier::rlimit(100)]
#[verifier::spinoff_prover]
fn parse_ref(s: &Vec<char>, start: usize) -> (r: Option<(Reference, usize)>)
    ensures
        match r {
            Some(p) => p_ref(s@, start as int) == Some((p.0@, p.1 as int)) && start < p.1
                <= s.len(),
            None => p_ref(s@, start as int) is None,
        },
{
    let j1 = match expect_lit(s, start, "{\n      \"id\": \"") {
        Some(j) => j,
        None => {
            return None;
        },
    };
    let (idv, j2) = match parse_string(s, j1) {
        Some(p) => p,
        None => {
            return None;
        },
    };
    let j3 = match expect_lit(s, j2, ",\n      \"referenceName\": \"") {
        Some(j) => j,
        None => {
            return None;
        },
    };
    let (namev, j4) = match parse_string(s, j3) {
        Some(p) => p,
        None => {
            return None;
        },
    };
    let j5 = match expect_lit(s, j4, ",\n      \"absolutePath\": \"") {
        Some(j) => j,
        None => {
            return None;
        },
    };
    let (pathv, j6) = match parse_string(s, j5) {
        Some(p) => p,
        None => {
            return None;
        },
    };
    let j7 = match expect_lit(s, j6, ",\n      \"type\": \"") {
        Some(j) => j,
        None => {
            return None;
        },
    };
    let (tyv, j8) = match parse_string(s, j7) {
        Some(p) => p,
        None => {
            return None;
        },
    };
    let j9 = match expect_lit(s, j8, ",\n      \"status\": \"") {
        Some(j) => j,
        None => {
            return None;
        },
    };
    let (stv, j10) = match parse_string(s, j9) {
        Some(p) => p,
        None => {
            return None;
        },
    };
    let j11 = match expect_lit(s, j10, ",\n      \"tags\": [") {
        Some(j) => j,
        None => {
            return None;
        },
    };
    let (tagsv, j12) = match parse_tags(s, j11) {
        Some(p) => p,
        None => {
            return None;
        },
    };
    let j13 = match expect_lit(s, j12, ",\n      \"description\": ") {
        Some(j) => j,
        None => {
            return None;
        },
    };
    let (descv, j14) = match parse_desc(s, j13) {
        Some(p) => p,
        None => {
            return None;
        },
    };
    let j15 = match expect_lit(s, j14, ",\n      \"createdAt\": \"") {
        Some(j) => j,
        None => {
            return None;
        },
    };
    let (crv, j16) = match parse_string(s, j15) {
        Some(p) => p,
        None => {
            return None;
        },
    };
    let j17 = match expect_lit(s, j16, ",\n      \"lastOpenedAt\": \"") {
        Some(j) => j,
        None => {
            return None;
        },
    };
    let (opv, j18) = match parse_string(s, j17) {
        Some(p) => p,
        None => {
            return None;
        },
    };
    let j19 = match expect_lit(s, j18, ",\n      \"pinned\": ") {
        Some(j) => j,
        None => {
            return None;
        },
    };
    let (pv, j20) = match parse_bool(s, j19) {
        Some(p) => p,
        None => {
            return None;
        },
    };
    let j21 = match expect_lit(s, j20, "\n    }") {
        Some(j) => j,
        None => {
            return None;
        },
    };
    let rec = Reference {
        id: idv,
        reference_name: namev,
        absolute_path: pathv,
        type_: tyv,
        status: stv,
        tags: tagsv,
        description: descv,
        created_at: crv,
        last_opened_at: opv,
        pinned: pv,
    };
    proof {
        assert(p_ref(s@, start as int) == Some((rec@, j21 as int)));
    }
    Some((rec, j21))
}

/// Decides [`parse_spec`]: reads a whole document, or rejects it.
#[verifier::rlimit(100)]
#[verifier::spinoff_prover]
pub fn parse_storage(s: &str) -> (r: Option<StorageFile>)
    ensures
        match r {
            Some(f) => parse_spec(s@) == Some(f.model()),
            None => parse_spec(s@) is None,
        },
{
    let cs = str_chars(s);
    let j = match expect_lit(&cs, 0, "{\n  \"references\": [") {
        Some(j) => j,
        None => {
            return None;
        },
    };
    if j >= cs.len() {
        return None;
    }
    let c = cs[j];
    if c == ']' {
        let j2 = match expect_lit(&cs, j, "]\n}") {
            Some(x) => x,
            None => {
                return None;
            },
        };
        if j2 == cs.len() {
            let f = StorageFile::new();
            proof {
                assert(parse_spec(s@) == Some(f.model()));
            }
            return Some(f);
        } else {
            return None;
        }
    }
    if c != '\n' {
        return None;
    }
    let j2 = match expect_lit(&cs, j, "\n    ") {
        Some(x) => x,
        None => {
            return None;
        },
    };
    let (r0, j3) = match parse_ref(&cs, j2) {
        Some(p) => p,
        None => {
            return None;
        },
    };
    let mut refs: Vec<Reference> = Vec::new();
    refs.push(r0);
    proof {
        assert(refs.deep_view() =~= seq![r0@]);
    }
    let mut i: usize = j3;
    loop
        invariant
            0 < i <= cs@.len(),
            cs@ == s@,
            match p_more_refs(s@, i as int) {
                Some(p) => parse_spec(s@) == Some(refs.deep_view() + p.0),
                None => parse_spec(s@) is None,
            },
        decreases s@.len() - i,
    {
        if i >= cs.len() {
            return None;
        }
        let ghost refs_old = refs.deep_view();
        let ghost i_old = i as int;
        let c2 = cs[i];
        if c2 == ',' {
            let j4 = match expect_lit(&cs, i, ",\n    ") {
                Some(x) => x,
                None => {
                    return None;
                },
            };
            let (rk, j5) = match parse_ref(&cs, j4) {
                Some(p) => p,
                None => {
                    return None;
                },
            };
            refs.push(rk);
            i = j5;
            proof {
                assert(refs.deep_view() =~= refs_old.push(rk@));
                if p_more_refs(s@, i as int) is Some {
                    let (ms, jj) = p_more_refs(s@, i as int).unwrap();
                    assert(p_more_refs(s@, i_old) == Some((seq![rk@] + ms, jj)));
                    assert(refs_old + (seq![rk@] + ms) =~= refs.deep_view() + ms);
                } else {
                    assert(p_more_refs(s@, i_old) is None);
                }
            }
        } else if c2 == '\n' {
            let j4 = match expect_lit(&cs, i, "\n  ]\n}") {
                Some(x) => x,
                None => {
                    return None;
                },
            };
            if j4 == cs.len() {
                let f = StorageFile { references: refs };
                proof {
                    assert(p_more_refs(s@, i_old) == Some(
                        (Seq::<RefModel>::empty(), j4 as int),
                    ));
                    assert(f.model() + Seq::<RefModel>::empty() =~= f.model());
                }
                return Some(f);
            } else {
                return None;
            }
        } else {
            return None;
        }
    }
}

/// Reads a persisted document into the collection it holds.  A text the
/// store did not write — corrupt, foreign, or empty — gives the empty
/// collection.
pub fn load_references(content: &str) -> (f: StorageFile)
    ensures
        match parse_spec(content@) {
            Some(m) => f.model() == m,
            None => f.model() == Seq::<RefModel>::empty(),
        },
{
    match parse_storage(content) {
        Some(f) => f,
        None => StorageFile::new(),
    }
}

} // verus!
