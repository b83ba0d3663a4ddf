//! The response value a handler produces, and its rendering to wire bytes:
//! `HTTP/1.1 <code> <reason>\r\n`, one `Name: Value\r\n` line per header, a
//! blank line, then the body. Splitting the rendered bytes at their first
//! blank line recovers the body exactly; that is proved at the end of this
//! module.

use crate::scan::ascii;
use crate::scan::ascii_bytes;
use crate::scan::CR;
use crate::scan::LF;
use crate::scan::SPACE;
use vstd::prelude::*;
use vstd::slice::slice_to_vec;

verus! {

/// A response before rendering: status code, header name/value pairs in the
/// order they will be written, and the body bytes.
pub struct HttpResponse {
    pub code: u16,
    pub headers: Vec<(Vec<u8>, Vec<u8>)>,
    pub body: Vec<u8>,
}

/// The views of a response's header pairs.
pub open spec fn header_views(hs: Seq<(Vec<u8>, Vec<u8>)>) -> Seq<(Seq<u8>, Seq<u8>)> {
    Seq::new(hs.len(), |i: int| (hs[i].0@, hs[i].1@))
}

impl HttpResponse {
    /// The mathematical value of this response: code, header pair views, body
    /// bytes.
    pub open spec fn model(&self) -> (u16, Seq<(Seq<u8>, Seq<u8>)>, Seq<u8>) {
        (self.code, header_views(self.headers@), self.body@)
    }
}

/// The line terminator.
pub open spec fn crlf() -> Seq<u8> {
    seq![CR, LF]
}

/// Decimal digits of `n`, most significant first.
pub open spec fn dec_digits(n: nat) -> Seq<u8>
    decreases n,
{
    if n < 10 {
        seq![(48 + n) as u8]
    } else {
        dec_digits(n / 10) + seq![(48 + n % 10) as u8]
    }
}

/// The reason phrase for a status code; codes outside the fixed mapping get a
/// generic placeholder.
pub open spec fn reason_of(code: u16) -> Seq<u8> {
    if code == 200 {
        ascii("OK"@)
    } else if code == 404 {
        ascii("Not Found"@)
    } else if code == 400 {
        ascii("Bad Request"@)
    } else {
        ascii("Unknown"@)
    }
}

/// The status line before its terminator: `HTTP/1.1 <code> <reason>`.
pub open spec fn status_core(code: u16) -> Seq<u8> {
    ascii("HTTP/1.1 "@) + dec_digits(code as nat) + seq![SPACE] + reason_of(code)
}

/// One rendered line per header pair: `Name: Value\r\n`.
pub open spec fn header_lines(hs: Seq<(Seq<u8>, Seq<u8>)>) -> Seq<u8>
    decreases hs.len(),
{
    if hs.len() == 0 {
        Seq::empty()
    } else {
        hs[0].0 + ascii(": "@) + hs[0].1 + crlf() + header_lines(hs.skip(1))
    }
}

/// The full wire form: status line, header lines, a blank line, the body.
pub open spec fn render(code: u16, hs: Seq<(Seq<u8>, Seq<u8>)>, body: Seq<u8>) -> Seq<u8> {
    status_core(code) + crlf() + header_lines(hs) + crlf() + body
}

/// Appending one header pair appends exactly its rendered line.
pub proof fn lemma_header_lines_push(hs: Seq<(Seq<u8>, Seq<u8>)>, x: (Seq<u8>, Seq<u8>))
    ensures
        header_lines(hs + seq![x]) == header_lines(hs) + (x.0 + ascii(": "@) + x.1 + crlf()),
    decreases hs.len(),
{
    if hs.len() == 0 {
        reveal_with_fuel(header_lines, 2);
        assert(hs + seq![x] =~= seq![x]);
        assert(seq![x].skip(1) =~= Seq::<(Seq<u8>, Seq<u8>)>::empty());
        assert(header_lines(seq![x]) =~= x.0 + ascii(": "@) + x.1 + crlf());
        assert(header_lines(hs) + (x.0 + ascii(": "@) + x.1 + crlf()) =~= x.0 + ascii(": "@) + x.1
            + crlf());
    } else {
        lemma_header_lines_push(hs.skip(1), x);
        assert((hs + seq![x]).skip(1) =~= hs.skip(1) + seq![x]);
        assert((hs + seq![x])[0] == hs[0]);
        assert(header_lines(hs + seq![x]) =~= header_lines(hs) + (x.0 + ascii(": "@) + x.1
            + crlf()));
    }
}

/// Decimal digits of `n`, most significant first.
pub fn dec_vec(n: u16) -> (r: Vec<u8>)
    ensures
        r@ == dec_digits(n as nat),
    decreases n,
{
    if n < 10 {
        let mut v: Vec<u8> = Vec::new();
        v.push(48 + n as u8);
        proof {
            assert(v@ =~= dec_digits(n as nat));
        }
        v
    } else {
        let mut v = dec_vec(n / 10);
        v.push(48 + (n % 10) as u8);
        proof {
            assert(v@ =~= dec_digits(n as nat));
        }
        v
    }
}

/// The reason phrase for a status code.
pub fn reason_vec(code: u16) -> (r: Vec<u8>)
    ensures
        r@ == reason_of(code),
{
    proof {
        reveal_strlit("OK");
        reveal_strlit("Not Found");
        reveal_strlit("Bad Request");
        reveal_strlit("Unknown");
    }
    if code == 200 {
        ascii_bytes("OK")
    } else if code == 404 {
        ascii_bytes("Not Found")
    } else if code == 400 {
        ascii_bytes("Bad Request")
    } else {
        ascii_bytes("Unknown")
    }
}

/// Render a response to its wire bytes.
pub fn build_response(resp: &HttpResponse) -> (wire: Vec<u8>)
    ensures
        wire@ == render(resp.code, header_views(resp.headers@), resp.body@),
{
    proof {
        reveal_strlit("HTTP/1.1 ");
        reveal_strlit(": ");
    }
    let mut out = ascii_bytes("HTTP/1.1 ");
    let mut d = dec_vec(resp.code);
    out.append(&mut d);
    out.push(SPACE);
    let mut rs = reason_vec(resp.code);
    out.append(&mut rs);
    out.push(CR);
    out.push(LF);
    let ghost hv = header_views(resp.headers@);
    proof {
        assert(out@ =~= status_core(resp.code) + crlf() + header_lines(hv.take(0)));
    }
    let mut i: usize = 0;
    while i < resp.headers.len()
        invariant
            0 <= i <= resp.headers@.len(),
            hv == header_views(resp.headers@),
            out@ == status_core(resp.code) + crlf() + header_lines(hv.take(i as int)),
        decreases resp.headers@.len() - i,
    {
        let ghost out0 = out@;
        let h = &resp.headers[i];
        let mut n = slice_to_vec(h.0.as_slice());
        out.append(&mut n);
        out.push(58);
        out.push(32);
        let mut v = slice_to_vec(h.1.as_slice());
        out.append(&mut v);
        out.push(CR);
        out.push(LF);
        proof {
            reveal_strlit(": ");
            let line = hv[i as int].0 + ascii(": "@) + hv[i as int].1 + crlf();
            assert(ascii(": "@) =~= seq![58u8, 32u8]);
            assert(out@ =~= out0 + line);
            lemma_header_lines_push(hv.take(i as int), hv[i as int]);
            assert(hv.take(i as int) + seq![hv[i as int]] =~= hv.take(i as int + 1));
            assert(out@ =~= status_core(resp.code) + crlf() + header_lines(hv.take(i as int + 1)));
        }
        i += 1;
    }
    out.push(CR);
    out.push(LF);
    let mut b = slice_to_vec(resp.body.as_slice());
    out.append(&mut b);
    proof {
        assert(hv.take(resp.headers@.len() as int) =~= hv);
        assert(out@ =~= render(resp.code, hv, resp.body@));
    }
    out
}

/// `s` holds neither CR nor LF.
pub open spec fn crlf_free(s: Seq<u8>) -> bool {
    forall|j: int| 0 <= j < s.len() ==> s[j] != CR && s[j] != LF
}

/// Position `i` starts a blank-line separator (`\r\n\r\n`) in `s`.
pub open spec fn sep_at(s: Seq<u8>, i: int) -> bool {
    &&& 0 <= i
    &&& i + 4 <= s.len()
    &&& s[i] == CR
    &&& s[i + 1] == LF
    &&& s[i + 2] == CR
    &&& s[i + 3] == LF
}

/// Index of the first blank-line separator in `s`; `s.len()` when none.
pub open spec fn first_sep_pos(s: Seq<u8>) -> int
    decreases s.len(),
{
    if s.len() < 4 {
        s.len() as int
    } else if s[0] == CR && s[1] == LF && s[2] == CR && s[3] == LF {
        0
    } else {
        1 + first_sep_pos(s.skip(1))
    }
}

/// What `first_sep_pos` finds: a separator, with none before it.
pub proof fn lemma_first_sep_pos(s: Seq<u8>)
    ensures
        0 <= first_sep_pos(s) <= s.len(),
        first_sep_pos(s) < s.len() ==> sep_at(s, first_sep_pos(s)),
        forall|j: int| 0 <= j < first_sep_pos(s) ==> !sep_at(s, j),
    decreases s.len(),
{
    if s.len() < 4 {
        assert forall|j: int| 0 <= j < first_sep_pos(s) implies !sep_at(s, j) by {}
    } else if s[0] == CR && s[1] == LF && s[2] == CR && s[3] == LF {
    } else {
        lemma_first_sep_pos(s.skip(1));
        assert forall|j: int| 0 <= j < first_sep_pos(s) implies !sep_at(s, j) by {
            if j > 0 && j + 4 <= s.len() {
                assert(s.skip(1)[j - 1] == s[j]);
                assert(s.skip(1)[j] == s[j + 1]);
                assert(s.skip(1)[j + 1] == s[j + 2]);
                assert(s.skip(1)[j + 2] == s[j + 3]);
                assert(!sep_at(s.skip(1), j - 1));
            }
        }
        if first_sep_pos(s) < s.len() {
            let f = first_sep_pos(s.skip(1));
            assert(s.skip(1)[f] == s[f + 1]);
            assert(s.skip(1)[f + 1] == s[f + 2]);
            assert(s.skip(1)[f + 2] == s[f + 3]);
            assert(s.skip(1)[f + 3] == s[f + 4]);
        }
    }
}

/// The body recovered by splitting `s` at its first blank-line separator.
pub open spec fn body_after(s: Seq<u8>) -> Seq<u8> {
    if first_sep_pos(s) + 4 <= s.len() {
        s.skip(first_sep_pos(s) + 4)
    } else {
        Seq::empty()
    }
}

/// Every line is non-empty and free of CR and LF.
pub open spec fn lines_ok(lines: Seq<Seq<u8>>) -> bool {
    forall|i: int| 0 <= i < lines.len() ==> (#[trigger] lines[i]).len() > 0 && crlf_free(lines[i])
}

/// Each line with its CRLF terminator, glued in order ahead of `suffix`.
pub open spec fn glue_lines(lines: Seq<Seq<u8>>, suffix: Seq<u8>) -> Seq<u8>
    decreases lines.len(),
{
    if lines.len() == 0 {
        suffix
    } else {
        lines[0] + crlf() + glue_lines(lines.skip(1), suffix)
    }
}

/// Total length of the glued lines, terminators included.
pub open spec fn glued_len(lines: Seq<Seq<u8>>) -> int
    decreases lines.len(),
{
    if lines.len() == 0 {
        0
    } else {
        lines[0].len() + 2 + glued_len(lines.skip(1))
    }
}

pub proof fn lemma_glue_len(lines: Seq<Seq<u8>>, suffix: Seq<u8>)
    ensures
        glued_len(lines) >= 0,
        glue_lines(lines, suffix).len() == glued_len(lines) + suffix.len(),
    decreases lines.len(),
{
    if lines.len() == 0 {
    } else {
        lemma_glue_len(lines.skip(1), suffix);
    }
}

/// What stands after the glued lines is exactly the suffix.
pub proof fn lemma_glue_suffix(lines: Seq<Seq<u8>>, suffix: Seq<u8>)
    ensures
        glue_lines(lines, suffix).skip(glued_len(lines)) == suffix,
    decreases lines.len(),
{
    lemma_glue_len(lines, suffix);
    if lines.len() == 0 {
        assert(glue_lines(lines, suffix).skip(0) =~= suffix);
    } else {
        lemma_glue_suffix(lines.skip(1), suffix);
        lemma_glue_len(lines.skip(1), suffix);
        assert(glue_lines(lines, suffix).skip(glued_len(lines)) =~= glue_lines(
            lines.skip(1),
            suffix,
        ).skip(glued_len(lines.skip(1))));
    }
}

/// No blank-line separator starts strictly before the end of the glued lines.
pub proof fn lemma_glue_no_early_sep(lines: Seq<Seq<u8>>, body: Seq<u8>, j: int)
    requires
        lines_ok(lines),
        sep_at(glue_lines(lines, crlf() + body), j),
    ensures
        j >= glued_len(lines) - 2,
    decreases lines.len(),
{
    let s = glue_lines(lines, crlf() + body);
    if lines.len() == 0 {
        lemma_glue_len(lines, crlf() + body);
    } else {
        let c = lines[0];
        let rest = glue_lines(lines.skip(1), crlf() + body);
        assert(c.len() > 0 && crlf_free(c));
        lemma_glue_len(lines.skip(1), crlf() + body);
        if j < c.len() {
            assert(s[j] == c[j]);
            assert(false);
        } else if j == c.len() {
            if lines.skip(1).len() == 0 {
                assert(glued_len(lines) == c.len() + 2);
            } else {
                let c1 = lines.skip(1)[0];
                assert(lines[1] == c1);
                assert(c1.len() > 0 && crlf_free(c1));
                assert(rest[0] == c1[0]);
                assert(s[j + 2] == rest[0]);
                assert(false);
            }
        } else if j == c.len() + 1 {
            assert(s[j] == LF);
            assert(false);
        } else {
            let j1 = j - c.len() - 2;
            assert(s[j] == rest[j1]);
            assert(s[j + 1] == rest[j1 + 1]);
            assert(s[j + 2] == rest[j1 + 2]);
            assert(s[j + 3] == rest[j1 + 3]);
            assert(sep_at(rest, j1));
            assert(lines_ok(lines.skip(1)));
            lemma_glue_no_early_sep(lines.skip(1), body, j1);
        }
    }
}

/// The glued lines end with a blank-line separator.
pub proof fn lemma_glue_sep_at_end(lines: Seq<Seq<u8>>, body: Seq<u8>)
    requires
        lines.len() > 0,
    ensures
        sep_at(glue_lines(lines, crlf() + body), glued_len(lines) - 2),
    decreases lines.len(),
{
    let s = glue_lines(lines, crlf() + body);
    let c = lines[0];
    let rest = glue_lines(lines.skip(1), crlf() + body);
    lemma_glue_len(lines.skip(1), crlf() + body);
    lemma_glue_len(lines, crlf() + body);
    if lines.skip(1).len() == 0 {
        assert(rest == crlf() + body);
        assert(s[c.len() as int] == CR);
        assert(s[c.len() + 1int] == LF);
        assert(s[c.len() + 2int] == rest[0]);
        assert(s[c.len() + 3int] == rest[1]);
    } else {
        lemma_glue_sep_at_end(lines.skip(1), body);
        let p1 = glued_len(lines.skip(1)) - 2;
        let p = glued_len(lines) - 2;
        assert(p == p1 + c.len() + 2);
        assert(s[p] == rest[p1]);
        assert(s[p + 1] == rest[p1 + 1]);
        assert(s[p + 2] == rest[p1 + 2]);
        assert(s[p + 3] == rest[p1 + 3]);
    }
}

/// Digits are decimal-digit bytes, and there is at least one.
pub proof fn lemma_dec_digits_range(n: nat)
    ensures
        dec_digits(n).len() > 0,
        forall|j: int| 0 <= j < dec_digits(n).len() ==> 48 <= #[trigger] dec_digits(n)[j] <= 57,
    decreases n,
{
    if n < 10 {
    } else {
        lemma_dec_digits_range(n / 10);
    }
}

/// The status line's content is non-empty and free of CR and LF.
pub proof fn lemma_status_core_ok(code: u16)
    ensures
        status_core(code).len() > 0,
        crlf_free(status_core(code)),
{
    reveal_strlit("HTTP/1.1 ");
    reveal_strlit("OK");
    reveal_strlit("Not Found");
    reveal_strlit("Bad Request");
    reveal_strlit("Unknown");
    lemma_dec_digits_range(code as nat);
    assert(crlf_free(ascii("HTTP/1.1 "@)));
    assert(crlf_free(reason_of(code)));
    assert forall|j: int| 0 <= j < status_core(code).len() implies status_core(code)[j] != CR
        && status_core(code)[j] != LF by {
        let s = status_core(code);
        let a = ascii("HTTP/1.1 "@);
        let d = dec_digits(code as nat);
        let r = reason_of(code);
        if j < a.len() {
            assert(s[j] == a[j]);
        } else if j < a.len() + d.len() {
            assert(s[j] == d[j - a.len()]);
        } else if j == a.len() + d.len() {
            assert(s[j] == SPACE);
        } else {
            assert(s[j] == r[j - a.len() - d.len() - 1]);
        }
    }
}

/// The rendered line contents: the status line, then one content per header.
pub open spec fn render_lines(code: u16, hs: Seq<(Seq<u8>, Seq<u8>)>) -> Seq<Seq<u8>> {
    seq![status_core(code)] + hs.map_values(|h: (Seq<u8>, Seq<u8>)| h.0 + ascii(": "@) + h.1)
}

/// The header lines followed by the blank line and body, seen as glued lines.
pub proof fn lemma_header_lines_as_glue(hs: Seq<(Seq<u8>, Seq<u8>)>, body: Seq<u8>)
    ensures
        header_lines(hs) + crlf() + body == glue_lines(
            hs.map_values(|h: (Seq<u8>, Seq<u8>)| h.0 + ascii(": "@) + h.1),
            crlf() + body,
        ),
    decreases hs.len(),
{
    let f = |h: (Seq<u8>, Seq<u8>)| h.0 + ascii(": "@) + h.1;
    if hs.len() == 0 {
        assert(header_lines(hs) + crlf() + body =~= crlf() + body);
        assert(hs.map_values(f).len() == 0);
    } else {
        lemma_header_lines_as_glue(hs.skip(1), body);
        assert(hs.map_values(f).skip(1) =~= hs.skip(1).map_values(f));
        assert(hs.map_values(f)[0] == f(hs[0]));
        assert(header_lines(hs) + crlf() + body =~= f(hs[0]) + crlf() + (header_lines(hs.skip(1))
            + crlf() + body));
    }
}

/// The full wire form, seen as glued lines ahead of the blank line and body.
pub proof fn lemma_render_as_glue(code: u16, hs: Seq<(Seq<u8>, Seq<u8>)>, body: Seq<u8>)
    ensures
        render(code, hs, body) == glue_lines(render_lines(code, hs), crlf() + body),
{
    let f = |h: (Seq<u8>, Seq<u8>)| h.0 + ascii(": "@) + h.1;
    lemma_header_lines_as_glue(hs, body);
    let lines = render_lines(code, hs);
    assert(lines[0] == status_core(code));
    assert(lines.skip(1) =~= hs.map_values(f));
    assert(render(code, hs, body) =~= status_core(code) + crlf() + (header_lines(hs) + crlf()
        + body));
}

/// Splitting the rendered response at its first blank line recovers the body
/// exactly, for any status code, any CR/LF-free header names and values, and
/// any body.
pub proof fn lemma_render_round_trip(code: u16, hs: Seq<(Seq<u8>, Seq<u8>)>, body: Seq<u8>)
    requires
        forall|i: int|
            0 <= i < hs.len() ==> crlf_free((#[trigger] hs[i]).0) && crlf_free(hs[i].1),
    ensures
        body_after(render(code, hs, body)) == body,
{
    reveal_strlit(": ");
    let f = |h: (Seq<u8>, Seq<u8>)| h.0 + ascii(": "@) + h.1;
    let lines = render_lines(code, hs);
    let s = render(code, hs, body);
    lemma_render_as_glue(code, hs, body);
    lemma_status_core_ok(code);
    assert(crlf_free(ascii(": "@)));
    assert forall|i: int| 0 <= i < lines.len() implies (#[trigger] lines[i]).len() > 0
        && crlf_free(lines[i]) by {
        if i > 0 {
            let h = hs[i - 1];
            assert(lines[i] == f(h));
            assert(crlf_free(h.0) && crlf_free(h.1));
            assert forall|j: int| 0 <= j < lines[i].len() implies lines[i][j] != CR && lines[i][j]
                != LF by {
                if j < h.0.len() {
                    assert(lines[i][j] == h.0[j]);
                } else if j < h.0.len() + 2 {
                    assert(lines[i][j] == ascii(": "@)[j - h.0.len()]);
                } else {
                    assert(lines[i][j] == h.1[j - h.0.len() - 2]);
                }
            }
        }
    }
    let p = glued_len(lines) - 2;
    lemma_glue_sep_at_end(lines, body);
    lemma_glue_len(lines, crlf() + body);
    lemma_first_sep_pos(s);
    let fp = first_sep_pos(s);
    if fp < p {
        assert(sep_at(s, fp));
        lemma_glue_no_early_sep(lines, body, fp);
        assert(false);
    }
    if fp > p {
        assert(!sep_at(s, p));
        assert(false);
    }
    lemma_glue_suffix(lines, crlf() + body);
    assert(s.skip(p + 4) =~= s.skip(glued_len(lines)).skip(2));
    assert((crlf() + body).skip(2) =~= body);
}

} // verus!
