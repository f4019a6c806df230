//! Rendering a Python requirement (PEP 508) back to text, keeping `{` and
//! `}` in URLs literal so that `${VAR}` templates in them survive.
use vstd::prelude::*;
use vstd::string::StringExecFns;
use crate::text::{char_vec, push_char};

verus! {

#[verifier::external_type_specification]
pub struct ExRequirement(pep508_rs::Requirement);

#[verifier::external_type_specification]
pub struct ExVersionOrUrl(pep508_rs::VersionOrUrl);

#[verifier::external_type_specification]
#[verifier::external_body]
pub struct ExVersionSpecifiers(pep440_rs::VersionSpecifiers);

#[verifier::external_type_specification]
#[verifier::external_body]
pub struct ExVersionSpecifier(pep440_rs::VersionSpecifier);

#[verifier::external_type_specification]
#[verifier::external_body]
pub struct ExUrl(url::Url);

#[verifier::external_type_specification]
#[verifier::external_body]
pub struct ExMarkerTree(pep508_rs::MarkerTree);

/// What follows a requirement's name and extras, as text.
pub enum VersionOrUrlText {
    /// Version specifiers such as `>=1.0.0` and `<2.0.0`, each as written.
    Specifiers(Vec<String>),
    /// The URL the requirement installs from, percent-encoded.
    Url(String),
}

/// The parts of a requirement, each as text.
pub struct RequirementText {
    pub name: String,
    pub extras: Option<Vec<String>>,
    pub version_or_url: Option<VersionOrUrlText>,
    pub marker: Option<String>,
}

pub open spec fn texts_of(v: Seq<String>) -> Seq<Seq<char>> {
    v.map_values(|s: String| s@)
}

/// `parts` with `sep` between each two.
pub open spec fn joined_with(parts: Seq<Seq<char>>, sep: Seq<char>) -> Seq<char>
    decreases parts.len(),
{
    if parts.len() == 0 {
        Seq::empty()
    } else if parts.len() == 1 {
        parts[0]
    } else {
        joined_with(parts.drop_last(), sep) + sep + parts.last()
    }
}

/// `u` with each `%7B` turned back into `{` and each `%7D` into `}`.
pub open spec fn unbraced(u: Seq<char>) -> Seq<char>
    decreases u.len(),
{
    if u.len() >= 3 && u[0] == '%' && u[1] == '7' && u[2] == 'B' {
        seq!['{'] + unbraced(u.skip(3))
    } else if u.len() >= 3 && u[0] == '%' && u[1] == '7' && u[2] == 'D' {
        seq!['}'] + unbraced(u.skip(3))
    } else if u.len() > 0 {
        seq![u[0]] + unbraced(u.skip(1))
    } else {
        Seq::empty()
    }
}

pub open spec fn extras_part(extras: Option<Vec<String>>) -> Seq<char> {
    match extras {
        Some(e) => seq!['['] + joined_with(texts_of(e@), seq![',']) + seq![']'],
        None => Seq::empty(),
    }
}

pub open spec fn version_or_url_part(v: Option<VersionOrUrlText>) -> Seq<char> {
    match v {
        Some(VersionOrUrlText::Specifiers(s)) => joined_with(texts_of(s@), seq![',', ' ']),
        Some(VersionOrUrlText::Url(u)) => seq![' ', '@', ' '] + unbraced(u@),
        None => Seq::empty(),
    }
}

pub open spec fn marker_part(m: Option<String>) -> Seq<char> {
    match m {
        Some(m) => seq![' ', ';', ' '] + m@,
        None => Seq::empty(),
    }
}

/// The text of a requirement: `name[extra,...]`, then the specifiers joined
/// by `, ` or ` @ url`, then ` ; marker`; absent parts leave no trace.
pub open spec fn rendered(t: RequirementText) -> Seq<char> {
    t.name@ + extras_part(t.extras) + version_or_url_part(t.version_or_url) + marker_part(
        t.marker,
    )
}

/// Appends `parts` to `out`, with `sep` between each two.
fn push_joined(out: &mut String, parts: &Vec<String>, sep: &str)
    ensures
        final(out)@ == old(out)@ + joined_with(texts_of(parts@), sep@),
{
    let ghost t = texts_of(parts@);
    let mut i: usize = 0;
    assert(t.take(0) =~= Seq::<Seq<char>>::empty());
    assert(old(out)@ + Seq::<char>::empty() =~= old(out)@);
    while i < parts.len()
        invariant
            t == texts_of(parts@),
            i <= parts.len(),
            out@ == old(out)@ + joined_with(t.take(i as int), sep@),
        decreases parts.len() - i,
    {
        assert(t.take(i + 1).drop_last() =~= t.take(i as int));
        if i > 0 {
            out.append(sep);
        }
        out.append(parts[i].as_str());
        i += 1;
        assert(out@ =~= old(out)@ + joined_with(t.take(i as int), sep@));
    }
    assert(t.take(parts.len() as int) =~= t);
}

/// Appends `u` to `out` with `%7B` and `%7D` turned back into braces.
fn push_unbraced(out: &mut String, u: &str)
    ensures
        final(out)@ == old(out)@ + unbraced(u@),
{
    let c = char_vec(u);
    let ghost s = c@;
    let mut i: usize = 0;
    assert(s.skip(0) =~= s);
    while i < c.len()
        invariant
            s == c@,
            s == u@,
            i <= c.len(),
            out@ + unbraced(s.skip(i as int)) == old(out)@ + unbraced(s),
        decreases c.len() - i,
    {
        let ghost rest = s.skip(i as int);
        let ghost before = out@;
        if c.len() - i >= 3 && c[i] == '%' && c[i + 1] == '7' && (c[i + 2] == 'B' || c[i + 2]
            == 'D') {
            if c[i + 2] == 'B' {
                push_char(out, '{');
            } else {
                push_char(out, '}');
            }
            assert(rest.skip(3) =~= s.skip(i + 3));
            assert(out@ + unbraced(s.skip(i + 3)) =~= before + unbraced(rest));
            i += 3;
        } else {
            push_char(out, c[i]);
            assert(rest.skip(1) =~= s.skip(i + 1));
            assert(out@ + unbraced(s.skip(i + 1)) =~= before + unbraced(rest));
            i += 1;
        }
    }
    assert(unbraced(s.skip(i as int)) =~= Seq::<char>::empty());
    assert(out@ + Seq::<char>::empty() =~= out@);
}

/// Renders a requirement's parts as one line of text.
pub fn render_requirement(t: &RequirementText) -> (r: String)
    ensures
        r@ == rendered(*t),
{
    proof {
        reveal_strlit("[");
        reveal_strlit("]");
        reveal_strlit(",");
        reveal_strlit(", ");
        reveal_strlit(" @ ");
        reveal_strlit(" ; ");
    }
    let mut out = t.name.clone();
    match &t.extras {
        Some(extras) => {
            out.append("[");
            push_joined(&mut out, extras, ",");
            out.append("]");
            assert("["@ =~= seq!['[']);
            assert("]"@ =~= seq![']']);
            assert(","@ =~= seq![',']);
        },
        None => {},
    }
    assert(out@ =~= t.name@ + extras_part(t.extras));
    match &t.version_or_url {
        Some(VersionOrUrlText::Specifiers(specifiers)) => {
            push_joined(&mut out, specifiers, ", ");
            assert(", "@ =~= seq![',', ' ']);
        },
        Some(VersionOrUrlText::Url(url)) => {
            out.append(" @ ");
            push_unbraced(&mut out, url.as_str());
            assert(" @ "@ =~= seq![' ', '@', ' ']);
        },
        None => {},
    }
    assert(out@ =~= t.name@ + extras_part(t.extras) + version_or_url_part(t.version_or_url));
    match &t.marker {
        Some(marker) => {
            out.append(" ; ");
            out.append(marker.as_str());
            assert(" ; "@ =~= seq![' ', ';', ' ']);
        },
        None => {},
    }
    assert(out@ =~= rendered(*t));
    out
}

/// Relies on the `Display` of pep440_rs's `VersionSpecifier`: each
/// specifier of the set, as text.
#[verifier::external_body]
fn specifier_texts(v: &pep440_rs::VersionSpecifiers) -> (r: Vec<String>) {
    v.iter().map(ToString::to_string).collect()
}

/// Relies on url's `Url::to_string`: the serialised, percent-encoded URL.
#[verifier::external_body]
fn url_text(u: &url::Url) -> (r: String) {
    u.to_string()
}

/// Relies on the `Display` of pep508_rs's `MarkerTree`: the marker as text.
#[verifier::external_body]
fn marker_text(m: &pep508_rs::MarkerTree) -> (r: String) {
    m.to_string()
}

/// `t` holds the name and extras of `req` as they are, and the same kind
/// of version part and marker.
pub open spec fn describes(t: RequirementText, req: pep508_rs::Requirement) -> bool {
    &&& t.name@ == req.name@
    &&& match (t.extras, req.extras) {
        (Some(a), Some(b)) => texts_of(a@) == texts_of(b@),
        (None, None) => true,
        _ => false,
    }
    &&& match (t.version_or_url, req.version_or_url) {
        (Some(VersionOrUrlText::Specifiers(_)), Some(pep508_rs::VersionOrUrl::VersionSpecifier(_))) => true,
        (Some(VersionOrUrlText::Url(_)), Some(pep508_rs::VersionOrUrl::Url(_))) => true,
        (None, None) => true,
        _ => false,
    }
    &&& (t.marker is Some <==> req.marker is Some)
}

fn copy_texts(v: &Vec<String>) -> (r: Vec<String>)
    ensures
        texts_of(r@) == texts_of(v@),
{
    let mut r: Vec<String> = Vec::new();
    let mut i: usize = 0;
    while i < v.len()
        invariant
            i <= v.len(),
            r.len() == i,
            texts_of(r@) == texts_of(v@).take(i as int),
        decreases v.len() - i,
    {
        let c = v[i].clone();
        assert(c@ == v@[i as int]@);
        let ghost before = r@;
        r.push(c);
        assert(texts_of(r@) =~= texts_of(v@).take(i + 1)) by {
            assert(forall|m: int| 0 <= m < i ==> texts_of(before)[m] == texts_of(v@)[m]);
        }
        i += 1;
    }
    assert(texts_of(v@).take(v.len() as int) =~= texts_of(v@));
    r
}

impl RequirementText {
    /// The parts of `req`: its name and extras, and its version
    /// specifiers, URL and marker as pep508_rs writes them.
    pub fn of(req: &pep508_rs::Requirement) -> (r: RequirementText)
        ensures
            describes(r, *req),
    {
        let extras = match &req.extras {
            Some(e) => Some(copy_texts(e)),
            None => None,
        };
        let version_or_url = match &req.version_or_url {
            Some(pep508_rs::VersionOrUrl::VersionSpecifier(v)) => Some(
                VersionOrUrlText::Specifiers(specifier_texts(v)),
            ),
            Some(pep508_rs::VersionOrUrl::Url(u)) => Some(VersionOrUrlText::Url(url_text(u))),
            None => None,
        };
        let marker = match &req.marker {
            Some(m) => Some(marker_text(m)),
            None => None,
        };
        RequirementText { name: req.name.clone(), extras, version_or_url, marker }
    }
}

/// Formats a Python requirement: `render_requirement` of its parts.
pub fn format_requirement(req: &pep508_rs::Requirement) -> (r: String)
    ensures
        exists|t: RequirementText| describes(t, *req) && r@ == rendered(t),
{
    let t = RequirementText::of(req);
    render_requirement(&t)
}

} // verus!
