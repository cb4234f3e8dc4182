//! Rendering of canonical records as human-oriented multi-line text.
//!
//! One labeled line per present field; absent optional fields are omitted
//! entirely, label included.  The field order is fixed: attribute path,
//! name, broken flag (only if true), availability flag (only if false),
//! priority, homepage, description, long description (continuation lines
//! indented under the label), license, source position.

use vstd::prelude::*;

use crate::nix::{
    ConsoleFormatFullLicense, ConsoleFormatInfo, ConsoleFormatLicense, FullLicense, License,
    NixInfo, SpecFullLicense, SpecLicense, SpecNixInfo,
};
use crate::rewrite::{spec_desc_lines, spec_strip_cr};
use crate::text::{i64_to_dec, spec_dec, spec_dec_signed, str_eq, u64_to_dec};

verus! {

/// A URL rendered after a license, separated by one space; empty when
/// there is no URL.
pub open spec fn spec_url_suffix(url: Option<Seq<char>>) -> Seq<char> {
    match url {
        Some(u) => " "@ + u,
        None => Seq::empty(),
    }
}

/// A free license prefers its SPDX identifier; otherwise the short name,
/// followed — only when there is no URL either — by the parenthesized full
/// name, so that a lone abbreviation never stands uninformative.
pub open spec fn spec_fmt_free(l: SpecFullLicense) -> Seq<char> {
    (match l.spdx_id {
        Some(sp) => sp,
        None => l.short_name + (if l.url is None {
            " ("@ + l.full_name + ")"@
        } else {
            Seq::<char>::empty()
        }),
    }) + spec_url_suffix(l.url)
}

/// A non-free license always surfaces the literal marker `unfree` beside
/// whichever of the full and short names are informative, parenthesizing
/// the short name when both are shown.
pub open spec fn spec_fmt_unfree(l: SpecFullLicense) -> Seq<char> {
    (if l.full_name != "Unfree"@ {
        l.full_name + " ("@ + "unfree"@ + (if l.short_name != "unfree"@ {
            "; "@ + l.short_name + ")"@
        } else {
            ")"@
        })
    } else {
        "unfree"@ + (if l.short_name != "unfree"@ {
            " ("@ + l.short_name + ")"@
        } else {
            Seq::<char>::empty()
        })
    }) + spec_url_suffix(l.url)
}

pub open spec fn spec_fmt_full(l: SpecFullLicense) -> Seq<char> {
    if l.free {
        spec_fmt_free(l)
    } else {
        spec_fmt_unfree(l)
    }
}

/// A list of licenses, one per line, continuation lines aligned under the
/// `license: ` label.
pub open spec fn spec_write_licenses(ls: Seq<SpecFullLicense>) -> Seq<char>
    decreases ls.len(),
{
    if ls.len() == 0 {
        Seq::empty()
    } else if ls.len() == 1 {
        spec_fmt_full(ls[0])
    } else {
        spec_fmt_full(ls[0]) + "\n         "@ + spec_write_licenses(ls.skip(1))
    }
}

pub open spec fn spec_fmt_license(l: SpecLicense) -> Seq<char> {
    match l {
        SpecLicense::Id(s) => s,
        SpecLicense::Named(n) => n,
        SpecLicense::Url(u) => u,
        SpecLicense::Full(f) => spec_fmt_full(f),
        SpecLicense::FullVec(fs) => spec_write_licenses(fs),
    }
}

/// One labeled output line.
pub open spec fn spec_label_line(label: Seq<char>, val: Seq<char>) -> Seq<char> {
    label + ": "@ + val + "\n"@
}

/// Continuation lines of a long description, indented to align under the
/// `long desc.: ` label.
pub open spec fn spec_cont_lines(ls: Seq<Seq<char>>) -> Seq<char>
    decreases ls.len(),
{
    if ls.len() == 0 {
        Seq::empty()
    } else {
        "            "@ + ls[0] + "\n"@ + spec_cont_lines(ls.skip(1))
    }
}

/// A long description: its first line under the label, the rest indented;
/// an empty description prints nothing, not even the label.
pub open spec fn spec_long_desc(d: Seq<char>) -> Seq<char> {
    let ls = spec_desc_lines(d);
    if ls.len() == 0 {
        Seq::empty()
    } else {
        spec_label_line("long desc."@, ls[0]) + spec_cont_lines(ls.skip(1))
    }
}

/// The full rendering of one record.
pub open spec fn spec_fmt_info(i: SpecNixInfo) -> Seq<char> {
    (match i.attr {
        Some(a) => spec_label_line("attr"@, a),
        None => Seq::<char>::empty(),
    }) + spec_label_line("name"@, i.name) + (if i.meta.broken {
        spec_label_line("broken"@, "true"@)
    } else {
        Seq::<char>::empty()
    }) + (if !i.meta.available {
        spec_label_line("available"@, "false"@)
    } else {
        Seq::<char>::empty()
    }) + (match i.meta.priority {
        Some(p) => spec_label_line("priority"@, spec_dec_signed(p)),
        None => Seq::<char>::empty(),
    }) + (match i.meta.homepage {
        Some(h) => spec_label_line("homepage"@, h),
        None => Seq::<char>::empty(),
    }) + (match i.meta.description {
        Some(d) => spec_label_line("description"@, d),
        None => Seq::<char>::empty(),
    }) + (match i.meta.long_description {
        Some(d) => spec_long_desc(d),
        None => Seq::<char>::empty(),
    }) + (match i.meta.license {
        Some(l) => spec_label_line("license"@, spec_fmt_license(l)),
        None => Seq::<char>::empty(),
    }) + (match i.meta.position {
        Some(p) => spec_label_line("defined in"@, p.path + " line "@ + spec_dec(p.line)),
        None => Seq::<char>::empty(),
    })
}

fn push_label_line(out: &mut String, label: &str, val: &str)
    ensures
        final (out)@ == old(out)@ + spec_label_line(label@, val@),
{
    out.append(label);
    out.append(": ");
    out.append(val);
    out.append("\n");
    proof {
        assert(out@ =~= old(out)@ + spec_label_line(label@, val@));
    }
}

impl<'a> ConsoleFormatFullLicense<'a> {
    /// Renders a free license.
    pub fn fmt_free(&self) -> (r: String)
        ensures
            r@ == spec_fmt_free(self.0@),
    {
        let l = self.0;
        let mut out = String::new();
        match &l.spdx_id {
            Some(sp) => {
                out.append(sp.as_str());
            },
            None => {
                out.append(l.short_name.as_str());
                if l.url.is_none() {
                    out.append(" (");
                    out.append(l.full_name.as_str());
                    out.append(")");
                }
            },
        }
        if let Some(u) = &l.url {
            out.append(" ");
            out.append(u.as_str());
        }
        proof {
            assert(out@ =~= spec_fmt_free(l@));
        }
        out
    }

    /// Renders a non-free license, surfacing the `unfree` marker.
    pub fn fmt_unfree(&self) -> (r: String)
        ensures
            r@ == spec_fmt_unfree(self.0@),
    {
        let l = self.0;
        let has_full_name = !str_eq(l.full_name.as_str(), "Unfree");
        let has_short_name = !str_eq(l.short_name.as_str(), "unfree");
        let mut out = String::new();
        if has_full_name {
            out.append(l.full_name.as_str());
            out.append(" (");
            out.append("unfree");
            if has_short_name {
                out.append("; ");
                out.append(l.short_name.as_str());
            }
            out.append(")");
        } else {
            out.append("unfree");
            if has_short_name {
                out.append(" (");
                out.append(l.short_name.as_str());
                out.append(")");
            }
        }
        if let Some(u) = &l.url {
            out.append(" ");
            out.append(u.as_str());
        }
        proof {
            assert(out@ =~= spec_fmt_unfree(l@));
        }
        out
    }

    /// Renders the license: by the free rule or the unfree rule, after its
    /// `free` flag.
    pub fn render(&self) -> (r: String)
        ensures
            r@ == spec_fmt_full(self.0@),
    {
        if self.0.free {
            self.fmt_free()
        } else {
            self.fmt_unfree()
        }
    }
}

fn write_licenses_from(licenses: &[FullLicense], i: usize) -> (r: String)
    requires
        i <= licenses@.len(),
    ensures
        r@ == spec_write_licenses(licenses@.skip(i as int).map_values(|f: FullLicense| f@)),
    decreases licenses@.len() - i,
{
    let n = licenses.len();
    let ghost rem = licenses@.skip(i as int).map_values(|f: FullLicense| f@);
    if i == n {
        proof {
            assert(rem =~= Seq::<SpecFullLicense>::empty());
        }
        return String::new();
    }
    proof {
        assert(rem[0] == licenses@[i as int]@);
        assert(rem.len() == licenses@.len() - i);
    }
    let first = licenses[i].console_fmt().render();
    if i + 1 == n {
        proof {
            assert(rem.len() == 1);
        }
        return first;
    }
    let mut out = first;
    out.append("\n         ");
    let rest = write_licenses_from(licenses, i + 1);
    out.append(rest.as_str());
    proof {
        assert(licenses@.skip(i as int + 1).map_values(|f: FullLicense| f@) =~= rem.skip(1));
        assert(out@ =~= spec_fmt_full(rem[0]) + "\n         "@ + spec_write_licenses(rem.skip(1)));
    }
    out
}

/// Renders a list of licenses, one per line, aligned under the label.
pub fn write_licenses(licenses: &[FullLicense]) -> (r: String)
    ensures
        r@ == spec_write_licenses(licenses@.map_values(|f: FullLicense| f@)),
{
    let r = write_licenses_from(licenses, 0);
    proof {
        assert(licenses@.skip(0) =~= licenses@);
    }
    r
}

impl<'a> ConsoleFormatLicense<'a> {
    /// Renders the license after its shape: an identifier verbatim, a bare
    /// name or URL as such, a full record by the free/unfree rule, a list
    /// one per line.
    pub fn render(&self) -> (r: String)
        ensures
            r@ == spec_fmt_license(self.0@),
    {
        match self.0 {
            License::Id(s) => s.clone(),
            License::Named(n) => n.full_name.clone(),
            License::Url(u) => u.url.clone(),
            License::Full(f) => f.console_fmt().render(),
            License::FullVec(fs) => write_licenses(fs.as_slice()),
        }
    }
}

fn cont_lines_from(out: &mut String, s: &str, i: usize)
    requires
        i <= s@.len(),
    ensures
        final (out)@ == old(out)@ + spec_cont_lines(spec_desc_lines(s@.skip(i as int))),
    decreases s@.len() - i,
{
    let len = s.unicode_len();
    let ghost t = s@.skip(i as int);
    if i == len {
        proof {
            assert(t =~= Seq::<char>::empty());
            assert(old(out)@ + Seq::<char>::empty() =~= old(out)@);
        }
        return ;
    }
    let mut j = i;
    while j < len && s.get_char(j) != '\n'
        invariant
            i <= j <= len,
            len == s@.len(),
            forall|k: int| i <= k < j ==> s@[k] != '\n',
        decreases len - j,
    {
        j = j + 1;
    }
    // a line terminated by \r\n loses the \r, as in str::lines
    let jj: usize = if j < len && j > i && s.get_char(j - 1) == '\r' {
        j - 1
    } else {
        j
    };
    let line = s.substring_char(i, jj);
    proof {
        assert(forall|k: int| 0 <= k < t.len() ==> t[k] == s@[#[trigger] (k + i)]);
        if j < len {
            assert(t[j - i] == s@[j as int]);
            crate::rewrite::lemma_first_nl_scan(t, j - i);
            assert(t.contains('\n')) by {
                assert(t[j - i] == '\n');
            }
            if j > i {
                assert(t.take(j - i).last() == s@[j - 1]);
            }
            if jj < j {
                assert(line@ =~= t.take(j - i).drop_last());
            } else {
                assert(line@ =~= t.take(j - i));
            }
            assert(line@ == spec_strip_cr(t.take(j - i)));
        } else {
            if t.contains('\n') {
                let w = choose|w: int| 0 <= w < t.len() && t[w] == '\n';
                assert(false);
            }
            assert(line@ =~= t);
        }
    }
    out.append("            ");
    out.append(line);
    out.append("\n");
    if j < len {
        cont_lines_from(out, s, j + 1);
        proof {
            assert(t.skip(j - i + 1) =~= s@.skip(j + 1));
            assert(spec_desc_lines(t)[0] == line@);
            assert((seq![spec_strip_cr(t.take(j - i))] + spec_desc_lines(t.skip(j - i + 1))).skip(
                1,
            ) =~= spec_desc_lines(t.skip(j - i + 1)));
            assert(spec_desc_lines(t).len() > 0);
            assert(spec_cont_lines(spec_desc_lines(t)) == "            "@ + spec_desc_lines(t)[0]
                + "\n"@ + spec_cont_lines(spec_desc_lines(t).skip(1)));
            assert(out@ =~= old(out)@ + spec_cont_lines(spec_desc_lines(t)));
        }
    } else {
        proof {
            assert(spec_desc_lines(t) =~= seq![line@]);
            assert(spec_desc_lines(t).skip(1) =~= Seq::<Seq<char>>::empty());
            assert(spec_cont_lines(spec_desc_lines(t)) == "            "@ + spec_desc_lines(t)[0]
                + "\n"@ + spec_cont_lines(spec_desc_lines(t).skip(1)));
            assert(out@ =~= old(out)@ + spec_cont_lines(spec_desc_lines(t)));
        }
    }
}

fn append_long_desc(out: &mut String, d: &str)
    ensures
        final (out)@ == old(out)@ + spec_long_desc(d@),
{
    let len = d.unicode_len();
    if len == 0 {
        proof {
            assert(spec_desc_lines(d@).len() == 0);
            assert(old(out)@ + Seq::<char>::empty() =~= old(out)@);
        }
        return ;
    }
    let mut j: usize = 0;
    while j < len && d.get_char(j) != '\n'
        invariant
            0 <= j <= len,
            len == d@.len(),
            forall|k: int| 0 <= k < j ==> d@[k] != '\n',
        decreases len - j,
    {
        j = j + 1;
    }
    // a line terminated by \r\n loses the \r, as in str::lines
    let jj: usize = if j < len && j > 0 && d.get_char(j - 1) == '\r' {
        j - 1
    } else {
        j
    };
    let line = d.substring_char(0, jj);
    proof {
        if j < len {
            crate::rewrite::lemma_first_nl_scan(d@, j as int);
            assert(d@.contains('\n')) by {
                assert(d@[j as int] == '\n');
            }
            if j > 0 {
                assert(d@.take(j as int).last() == d@[j - 1]);
            }
            if jj < j {
                assert(line@ =~= d@.take(j as int).drop_last());
            } else {
                assert(line@ =~= d@.take(j as int));
            }
            assert(line@ == spec_strip_cr(d@.take(j as int)));
        } else {
            if d@.contains('\n') {
                let w = choose|w: int| 0 <= w < d@.len() && d@[w] == '\n';
                assert(false);
            }
            assert(line@ =~= d@);
        }
        assert(spec_desc_lines(d@)[0] == line@);
    }
    push_label_line(out, "long desc.", line);
    if j < len {
        cont_lines_from(out, d, j + 1);
        proof {
            assert((seq![spec_strip_cr(d@.take(j as int))] + spec_desc_lines(d@.skip(j + 1))).skip(
                1,
            ) =~= spec_desc_lines(d@.skip(j + 1)));
            assert(out@ =~= old(out)@ + spec_long_desc(d@));
        }
    } else {
        proof {
            assert(spec_desc_lines(d@) =~= seq![line@]);
            assert(spec_desc_lines(d@).skip(1) =~= Seq::<Seq<char>>::empty());
            assert(out@ =~= old(out)@ + spec_long_desc(d@));
        }
    }
}

impl<'a> ConsoleFormatInfo<'a> {
    /// Renders the whole record: one labeled line per present field, in
    /// the fixed field order, absent fields omitted entirely.
    pub fn render(&self) -> (r: String)
        ensures
            r@ == spec_fmt_info(self.0@),
    {
        let info = self.0;
        let mut out = String::new();
        if let Some(a) = &info.attr {
            push_label_line(&mut out, "attr", a.as_str());
        }
        push_label_line(&mut out, "name", info.name.as_str());
        let meta = &info.meta;
        if meta.broken {
            push_label_line(&mut out, "broken", "true");
        }
        if !meta.available {
            push_label_line(&mut out, "available", "false");
        }
        if let Some(p) = &meta.priority {
            let dec = i64_to_dec(*p);
            push_label_line(&mut out, "priority", dec.as_str());
        }
        if let Some(h) = &meta.homepage {
            push_label_line(&mut out, "homepage", h.as_str());
        }
        if let Some(de) = &meta.description {
            push_label_line(&mut out, "description", de.as_str());
        }
        if let Some(ld) = &meta.long_description {
            append_long_desc(&mut out, ld.as_str());
        }
        if let Some(l) = &meta.license {
            let rendered = l.console_fmt().render();
            push_label_line(&mut out, "license", rendered.as_str());
        }
        if let Some(p) = &meta.position {
            let mut v = p.path.clone();
            v.append(" line ");
            let dec = u64_to_dec(p.line);
            v.append(dec.as_str());
            push_label_line(&mut out, "defined in", v.as_str());
        }
        proof {
            assert(out@ =~= spec_fmt_info(info@));
        }
        out
    }
}

} // verus!
