//! `${NAME}` template expansion, where NAME is a run of `A`-`Z`, `0`-`9`
//! and `_`: each reference is replaced, left to right, by what a resolver
//! gives for its name, or by nothing.
use vstd::prelude::*;
use vstd::string::StringExecFns;
use crate::text::{char_vec, push_char, string_of};

verus! {

pub open spec fn is_name_char(c: char) -> bool {
    ('A' <= c && c <= 'Z') || ('0' <= c && c <= '9') || c == '_'
}

/// How many name characters `s` starts with.
pub open spec fn name_run(s: Seq<char>) -> nat
    decreases s.len(),
{
    if s.len() > 0 && is_name_char(s[0]) {
        1 + name_run(s.skip(1))
    } else {
        0
    }
}

/// The length of the `${NAME}` reference that `s` starts with, or 0 where
/// none starts there.
pub open spec fn reference_len(s: Seq<char>) -> nat {
    if s.len() >= 2 && s[0] == '$' && s[1] == '{' {
        let k = name_run(s.skip(2));
        if k > 0 && k + 2 < s.len() && s[k + 2int] == '}' {
            k + 3
        } else {
            0
        }
    } else {
        0
    }
}

/// The names that `s` references, in order of appearance.
pub open spec fn references(s: Seq<char>) -> Seq<Seq<char>>
    decreases s.len(),
{
    if s.len() == 0 {
        Seq::empty()
    } else {
        let k = reference_len(s);
        if k > 0 {
            seq![s.subrange(2, k - 1int)] + references(s.skip(k as int))
        } else {
            references(s.skip(1))
        }
    }
}

pub open spec fn first_or_empty(v: Seq<Seq<char>>) -> Seq<char> {
    if v.len() > 0 {
        v[0]
    } else {
        Seq::empty()
    }
}

pub open spec fn after_first(v: Seq<Seq<char>>) -> Seq<Seq<char>> {
    if v.len() > 0 {
        v.skip(1)
    } else {
        v
    }
}

/// `s` with its references replaced, in order, by `values` (by nothing once
/// `values` runs out); the text around them unchanged.
pub open spec fn substituted(s: Seq<char>, values: Seq<Seq<char>>) -> Seq<char>
    decreases s.len(),
{
    if s.len() == 0 {
        Seq::empty()
    } else {
        let k = reference_len(s);
        if k > 0 {
            first_or_empty(values) + substituted(s.skip(k as int), after_first(values))
        } else {
            seq![s[0]] + substituted(s.skip(1), values)
        }
    }
}

/// The values from `j` on.
pub open spec fn values_from(v: Seq<Seq<char>>, j: int) -> Seq<Seq<char>> {
    if j >= v.len() {
        Seq::empty()
    } else {
        v.skip(j)
    }
}

pub open spec fn string_texts(v: Seq<String>) -> Seq<Seq<char>> {
    v.map_values(|s: String| s@)
}

/// The length of the reference that starts at `i` in `c`, or 0.
fn reference_len_at(c: &Vec<char>, i: usize) -> (k: usize)
    requires
        i <= c.len(),
    ensures
        k == reference_len(c@.skip(i as int)),
        k <= c.len() - i,
{
    let ghost s = c@.skip(i as int);
    if !(c.len() - i >= 2 && c[i] == '$' && c[i + 1] == '{') {
        return 0;
    }
    let mut m: usize = i + 2;
    assert(s.skip(2) =~= c@.skip(m as int));
    while m < c.len() && is_name_char_exec(c[m])
        invariant
            i + 2 <= m <= c.len(),
            s == c@.skip(i as int),
            name_run(s.skip(2)) == (m - i - 2) + name_run(c@.skip(m as int)),
        decreases c.len() - m,
    {
        assert(c@.skip(m as int).skip(1) =~= c@.skip(m + 1));
        m += 1;
    }
    let k = m - i - 2;
    if k > 0 && m < c.len() && c[m] == '}' {
        k + 3
    } else {
        0
    }
}

fn is_name_char_exec(c: char) -> (r: bool)
    ensures
        r == is_name_char(c),
{
    ('A' <= c && c <= 'Z') || ('0' <= c && c <= '9') || c == '_'
}

/// The names of the `${NAME}` references in `string`, in order.
pub fn env_var_names(string: &str) -> (r: Vec<String>)
    ensures
        string_texts(r@) == references(string@),
{
    let c = char_vec(string);
    let ghost s = c@;
    let mut names: Vec<String> = Vec::new();
    let mut i: usize = 0;
    assert(s.skip(0) =~= s);
    while i < c.len()
        invariant
            s == c@,
            s == string@,
            i <= c.len(),
            references(s) == string_texts(names@) + references(s.skip(i as int)),
        decreases c.len() - i,
    {
        let k = reference_len_at(&c, i);
        let ghost before = names@;
        if k > 0 {
            let mut name: Vec<char> = Vec::new();
            let mut m: usize = i + 2;
            while m < i + k - 1
                invariant
                    i + 2 <= m <= i + k - 1,
                    i + k <= c.len(),
                    name@ == c@.subrange(i + 2, m as int),
                decreases i + k - 1 - m,
            {
                name.push(c[m]);
                m += 1;
                assert(name@ =~= c@.subrange(i + 2, m as int));
            }
            let text = string_of(&name);
            names.push(text);
            proof {
                assert(s.skip(i as int).subrange(2, k - 1) =~= name@);
                assert(s.skip(i as int).skip(k as int) =~= s.skip(i + k));
                assert(string_texts(names@) =~= string_texts(before).push(name@));
            }
            i += k;
        } else {
            assert(s.skip(i as int).skip(1) =~= s.skip(i + 1));
            i += 1;
        }
    }
    assert(s.skip(i as int) =~= Seq::<char>::empty());
    assert(string_texts(names@) + Seq::<Seq<char>>::empty() =~= string_texts(names@));
    names
}

/// `string` with its `${NAME}` references replaced, in order, by `values`;
/// a reference beyond the last value is replaced by nothing.
pub fn substitute_env_vars(string: &str, values: &Vec<String>) -> (r: String)
    ensures
        r@ == substituted(string@, string_texts(values@)),
{
    let c = char_vec(string);
    let ghost s = c@;
    let ghost v = string_texts(values@);
    let mut out = String::new();
    let mut i: usize = 0;
    let mut j: usize = 0;
    assert(s.skip(0) =~= s);
    assert(values_from(v, 0) =~= v);
    while i < c.len()
        invariant
            s == c@,
            s == string@,
            v == string_texts(values@),
            i <= c.len(),
            substituted(s, v) == out@ + substituted(s.skip(i as int), values_from(v, j as int)),
        decreases c.len() - i,
    {
        let k = reference_len_at(&c, i);
        let ghost rest = values_from(v, j as int);
        if k > 0 {
            let ghost before = out@;
            if j < values.len() {
                out.append(values[j].as_str());
                assert(first_or_empty(rest) == v[j as int]);
            } else {
                assert(first_or_empty(rest) =~= Seq::<char>::empty());
                assert(out@ =~= before + first_or_empty(rest));
            }
            proof {
                assert(after_first(rest) =~= values_from(v, j + 1));
                assert(s.skip(i as int).skip(k as int) =~= s.skip(i + k));
            }
            if j < values.len() {
                j += 1;
            }
            proof {
                if j == values.len() {
                    assert(values_from(v, j + 1) =~= values_from(v, j as int));
                }
            }
            i += k;
        } else {
            push_char(&mut out, c[i]);
            assert(s.skip(i as int).skip(1) =~= s.skip(i + 1));
            i += 1;
        }
    }
    assert(s.skip(i as int) =~= Seq::<char>::empty());
    assert(out@ + Seq::<char>::empty() =~= out@);
    out
}

/// The text that a resolver's answer contributes: its value, or nothing.
pub open spec fn answer_text(o: Option<String>) -> Seq<char> {
    match o {
        Some(v) => v@,
        None => Seq::empty(),
    }
}

/// `value` is what one call of `f` on `name` may contribute.
pub open spec fn resolves_to<F: Fn(&str) -> Option<String>>(f: F, name: Seq<char>, value: Seq<char>) -> bool {
    exists|x: &str, o: Option<String>|
        x@ == name && #[trigger] f.ensures((x,), o) && value == answer_text(o)
}

proof fn lemma_no_references_unchanged(s: Seq<char>, values: Seq<Seq<char>>)
    requires
        references(s).len() == 0,
    ensures
        substituted(s, values) == s,
    decreases s.len(),
{
    if s.len() > 0 {
        let k = reference_len(s);
        if k == 0 {
            lemma_no_references_unchanged(s.skip(1), values);
            assert(seq![s[0]] + s.skip(1) =~= s);
        }
    }
}

/// Expands each `${NAME}` reference in `string` to what `f` gives for NAME,
/// or to nothing where `f` gives `None`, in one left-to-right pass; other
/// text is kept as it is. `f` is asked once per reference, in order.
pub fn expand_env_vars<F: Fn(&str) -> Option<String>>(string: &str, f: F) -> (r: String)
    requires
        forall|x: &str| f.requires((x,)),
    ensures
        exists|values: Seq<Seq<char>>|
            {
                &&& values.len() == references(string@).len()
                &&& forall|i: int|
                    0 <= i < values.len() ==> resolves_to(f, references(string@)[i], #[trigger] values[i])
                &&& r@ == substituted(string@, values)
            },
        references(string@).len() == 0 ==> r@ == string@,
{
    let names = env_var_names(string);
    let mut values: Vec<String> = Vec::new();
    let mut i: usize = 0;
    while i < names.len()
        invariant
            forall|x: &str| f.requires((x,)),
            i <= names.len(),
            values.len() == i,
            forall|m: int|
                0 <= m < i ==> resolves_to(f, names@[m]@, #[trigger] string_texts(values@)[m]),
        decreases names.len() - i,
    {
        let name = names[i].as_str();
        let answer = f(name);
        let ghost o = answer;
        let value = match answer {
            Some(v) => v,
            None => String::new(),
        };
        proof {
            assert(value@ == answer_text(o));
            assert(resolves_to(f, names@[i as int]@, value@));
        }
        let ghost before = values@;
        values.push(value);
        proof {
            assert forall|m: int| 0 <= m < i + 1 implies resolves_to(
                f,
                names@[m]@,
                #[trigger] string_texts(values@)[m],
            ) by {
                if m < i {
                    assert(string_texts(values@)[m] == string_texts(before)[m]);
                }
            }
        }
        i += 1;
    }
    let r = substitute_env_vars(string, &values);
    proof {
        let vals = string_texts(values@);
        assert forall|m: int| 0 <= m < vals.len() implies resolves_to(
            f,
            references(string@)[m],
            #[trigger] vals[m],
        ) by {
            assert(references(string@)[m] == string_texts(names@)[m]);
        }
        if references(string@).len() == 0 {
            lemma_no_references_unchanged(string@, vals);
        }
    }
    r
}

} // verus!
