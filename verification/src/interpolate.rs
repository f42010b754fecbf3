//! Placeholders of the form `${NAME}` and their substitution.
//!
//! A placeholder is `$`, `{`, a name that starts with an ASCII letter or `_`
//! and continues with ASCII letters, digits or `_`, and `}`. Placeholders are
//! found left to right, without overlap.

use vstd::prelude::*;
use crate::text::{replace_all, chars_of, string_from_chars, replace_all_chars};

verus! {

/// A character that may start a placeholder name.
pub open spec fn is_name_start(c: char) -> bool {
    ('A' <= c && c <= 'Z') || ('a' <= c && c <= 'z') || c == '_'
}

/// A character that may continue a placeholder name.
pub open spec fn is_name_char(c: char) -> bool {
    is_name_start(c) || ('0' <= c && c <= '9')
}

/// The number of name characters in `s` from position `j` on, up to the
/// first other character or the end.
pub open spec fn name_run(s: Seq<char>, j: nat) -> nat
    decreases s.len() - j,
{
    if j < s.len() && is_name_char(s[j as int]) {
        1 + name_run(s, j + 1)
    } else {
        0
    }
}

/// The length of the name of the placeholder that begins at position `i`
/// of `s`, if one begins there.
pub open spec fn placeholder_at(s: Seq<char>, i: nat) -> Option<nat> {
    if i + 2 < s.len() && s[i as int] == '$' && s[i + 1int] == '{' && is_name_start(s[i + 2int]) {
        let r = name_run(s, i + 2);
        if i + 2 + r < s.len() && s[i + 2int + r] == '}' {
            Some(r)
        } else {
            None
        }
    } else {
        None
    }
}

/// The names of the placeholders of `s` that begin at position `i` or later,
/// in order.
pub open spec fn placeholder_names_from(s: Seq<char>, i: nat) -> Seq<Seq<char>>
    decreases s.len() - i,
{
    if i >= s.len() {
        Seq::empty()
    } else {
        match placeholder_at(s, i) {
            Some(r) => seq![s.subrange(i + 2int, i + 2int + r)] + placeholder_names_from(s, i + 3 + r),
            None => placeholder_names_from(s, i + 1),
        }
    }
}

/// The names of the placeholders of `s`, in order of appearance (a name that
/// appears twice is listed twice).
pub open spec fn placeholder_names(s: Seq<char>) -> Seq<Seq<char>> {
    placeholder_names_from(s, 0)
}

/// The text of the placeholder for `name`: `${name}`.
pub open spec fn placeholder(name: Seq<char>) -> Seq<char> {
    seq!['$', '{'] + name + seq!['}']
}

/// The value of the first entry for `key`, if any.
pub open spec fn lookup_first<V>(entries: Seq<(Seq<char>, V)>, key: Seq<char>) -> Option<V>
    decreases entries.len(),
{
    if entries.len() == 0 {
        None
    } else if entries[0].0 == key {
        Some(entries[0].1)
    } else {
        lookup_first(entries.drop_first(), key)
    }
}

/// Starting from `text`, each name in turn whose variable is set has every
/// occurrence of its placeholder in the current text replaced by the value.
pub open spec fn substitute_names(
    text: Seq<char>,
    names: Seq<Seq<char>>,
    env: Seq<(Seq<char>, Seq<char>)>,
) -> Seq<char>
    decreases names.len(),
{
    if names.len() == 0 {
        text
    } else {
        let next = match lookup_first(env, names[0]) {
            Some(value) => replace_all(text, placeholder(names[0]), value),
            None => text,
        };
        substitute_names(next, names.drop_first(), env)
    }
}

/// Interpolation of `s` against the variables `env`: the placeholders are
/// those of `s` itself, taken in order.
pub open spec fn interpolate(s: Seq<char>, env: Seq<(Seq<char>, Seq<char>)>) -> Seq<char> {
    substitute_names(s, placeholder_names(s), env)
}

/// Starting from `text`, every `${key}` of each entry in turn is replaced by
/// the entry's value.
pub open spec fn substitute_variables(
    text: Seq<char>,
    vars: Seq<(Seq<char>, Seq<char>)>,
) -> Seq<char>
    decreases vars.len(),
{
    if vars.len() == 0 {
        text
    } else {
        substitute_variables(replace_all(text, placeholder(vars[0].0), vars[0].1), vars.drop_first())
    }
}

/// A rendered template: the content interpolated against `env`, then every
/// variable of the configuration substituted in the order given.
pub open spec fn rendered_template(
    content: Seq<char>,
    env: Seq<(Seq<char>, Seq<char>)>,
    vars: Option<Seq<(Seq<char>, Seq<char>)>>,
) -> Seq<char> {
    let interpolated = interpolate(content, env);
    match vars {
        Some(v) => substitute_variables(interpolated, v),
        None => interpolated,
    }
}

/// The length of the run of name characters from position `j`.
fn name_run_at(s: &Vec<char>, j: usize) -> (r: usize)
    requires
        j <= s.len(),
    ensures
        r == name_run(s@, j as nat),
        j + r <= s.len(),
{
    let mut k: usize = s.len();
    // Find the end of the run, then count back.
    let mut e: usize = j;
    while e < s.len() && (('A' <= s[e] && s[e] <= 'Z') || ('a' <= s[e] && s[e] <= 'z') || s[e]
        == '_' || ('0' <= s[e] && s[e] <= '9'))
        invariant
            j <= e <= s.len(),
            forall|m: int| j <= m < e ==> is_name_char(#[trigger] s@[m]),
        decreases s.len() - e,
    {
        e = e + 1;
    }
    k = e;
    // name_run from k is 0; each earlier position adds one.
    let mut p: usize = k;
    while p > j
        invariant
            j <= p <= k,
            k <= s.len(),
            forall|m: int| j <= m < k ==> is_name_char(#[trigger] s@[m]),
            k == s.len() || !is_name_char(s@[k as int]),
            name_run(s@, p as nat) == k - p,
        decreases p,
    {
        p = p - 1;
        assert(name_run(s@, p as nat) == 1 + name_run(s@, (p + 1) as nat));
    }
    k - j
}

/// The length of the name of the placeholder that begins at position `i`, if
/// one does.
fn placeholder_len_at(s: &Vec<char>, i: usize) -> (r: Option<usize>)
    requires
        i <= s.len(),
    ensures
        r matches Some(n) ==> placeholder_at(s@, i as nat) == Some(n as nat) && i + 3 + n
            <= s.len(),
        r is None ==> placeholder_at(s@, i as nat) is None,
{
    if s.len() - i > 2 && s[i] == '$' && s[i + 1] == '{' && (('A' <= s[i + 2] && s[i + 2]
        <= 'Z') || ('a' <= s[i + 2] && s[i + 2] <= 'z') || s[i + 2] == '_') {
        let r = name_run_at(s, i + 2);
        if i + 2 + r < s.len() && s[i + 2 + r] == '}' {
            Some(r)
        } else {
            None
        }
    } else {
        None
    }
}

/// The names of the placeholders of `input`, in order of appearance.
pub fn env_var_names(input: &str) -> (r: Vec<String>)
    ensures
        r@.map_values(|n: String| n@) == placeholder_names(input@),
{
    let s = chars_of(input);
    let mut names: Vec<String> = Vec::new();
    let mut i: usize = 0;
    while i < s.len()
        invariant
            i <= s.len(),
            names@.map_values(|n: String| n@) + placeholder_names_from(s@, i as nat)
                == placeholder_names_from(s@, 0),
        decreases s.len() - i,
    {
        match placeholder_len_at(&s, i) {
            Some(n) => {
                let name = string_from_chars(&s.as_slice()[i + 2..i + 2 + n]);
                let ghost before = names@.map_values(|n: String| n@);
                names.push(name);
                assert(names@.map_values(|n: String| n@) =~= before.push(s@.subrange(
                    i + 2,
                    i + 2 + n,
                )));
                assert(before.push(s@.subrange(i + 2, i + 2 + n)) + placeholder_names_from(
                    s@,
                    (i + 3 + n) as nat,
                ) =~= before + placeholder_names_from(s@, i as nat));
                i = i + 3 + n;
            },
            None => {
                i = i + 1;
            },
        }
    }
    assert(names@.map_values(|n: String| n@) + Seq::<Seq<char>>::empty() =~= names@.map_values(
        |n: String| n@,
    ));
    names
}

/// The value of the first entry whose key is `key`.
pub fn lookup_value<'a>(entries: &'a Vec<(String, String)>, key: &String) -> (r: Option<&'a String>)
    ensures
        r matches Some(v) ==> lookup_first(entries.deep_view(), key@) == Some(v@),
        r is None ==> lookup_first(entries.deep_view(), key@) is None,
{
    let ghost all = entries.deep_view();
    let mut i: usize = 0;
    assert(all.skip(0) =~= all);
    while i < entries.len()
        invariant
            i <= entries.len(),
            all == entries.deep_view(),
            lookup_first(all, key@) == lookup_first(all.skip(i as int), key@),
        decreases entries.len() - i,
    {
        assert(all.skip(i as int)[0] == all[i as int]);
        assert(all.skip(i as int).drop_first() =~= all.skip(i + 1));
        if entries[i].0 == *key {
            return Some(&entries[i].1);
        }
        i = i + 1;
    }
    None
}

/// The characters of `${name}`.
fn placeholder_chars(name: &String) -> (r: Vec<char>)
    ensures
        r@ == placeholder(name@),
{
    let mut v: Vec<char> = Vec::new();
    v.push('$');
    v.push('{');
    let mut n = chars_of(name.as_str());
    v.append(&mut n);
    v.push('}');
    assert(v@ =~= placeholder(name@));
    v
}

/// Replaces the placeholders of `input` by the values of their variables in
/// `env` (the variables that are set, each with its value; the first entry
/// for a name counts). The placeholders are those of `input`, in order; for
/// each whose variable is set, every occurrence of its placeholder in the text
/// as it stands at that point is replaced. Placeholders of unset variables are
/// left as they are.
pub fn interpolate_env_vars(input: &str, env: &Vec<(String, String)>) -> (r: String)
    ensures
        r@ == interpolate(input@, env.deep_view()),
{
    let names = env_var_names(input);
    let ghost nv = names@.map_values(|n: String| n@);
    let mut text = chars_of(input);
    let mut i: usize = 0;
    assert(nv.skip(0) =~= nv);
    while i < names.len()
        invariant
            i <= names.len(),
            nv == names@.map_values(|n: String| n@),
            nv == placeholder_names(input@),
            substitute_names(text@, nv.skip(i as int), env.deep_view()) == interpolate(
                input@,
                env.deep_view(),
            ),
        decreases names.len() - i,
    {
        assert(nv.skip(i as int)[0] == names@[i as int]@);
        assert(nv.skip(i as int).drop_first() =~= nv.skip(i + 1));
        match lookup_value(env, &names[i]) {
            Some(value) => {
                let pat = placeholder_chars(&names[i]);
                let val = chars_of(value.as_str());
                text = replace_all_chars(&text, &pat, &val);
            },
            None => {},
        }
        i = i + 1;
    }
    string_from_chars(text.as_slice())
}

/// Replaces every `${key}` of each variable in turn by its value.
fn substitute_variables_chars(text: Vec<char>, vars: &Vec<(String, String)>) -> (r: Vec<char>)
    ensures
        r@ == substitute_variables(text@, vars.deep_view()),
{
    let ghost vv = vars.deep_view();
    let mut cur = text;
    let mut i: usize = 0;
    assert(vv.skip(0) =~= vv);
    while i < vars.len()
        invariant
            i <= vars.len(),
            vv == vars.deep_view(),
            substitute_variables(cur@, vv.skip(i as int)) == substitute_variables(text@, vv),
        decreases vars.len() - i,
    {
        assert(vv.skip(i as int)[0] == vv[i as int]);
        assert(vv.skip(i as int).drop_first() =~= vv.skip(i + 1));
        let pat = placeholder_chars(&vars[i].0);
        let val = chars_of(vars[i].1.as_str());
        cur = replace_all_chars(&cur, &pat, &val);
        i = i + 1;
    }
    cur
}

/// Renders a template: the content is interpolated against `env`, then each
/// variable of the configuration, in the order given, has every `${key}`
/// replaced by its value.
pub fn render_template(
    content: &str,
    env: &Vec<(String, String)>,
    variables: &Option<Vec<(String, String)>>,
) -> (r: String)
    ensures
        r@ == rendered_template(content@, env.deep_view(), variables.deep_view()),
{
    let interpolated = interpolate_env_vars(content, env);
    match variables {
        Some(vars) => {
            let text = chars_of(interpolated.as_str());
            let out = substitute_variables_chars(text, vars);
            string_from_chars(out.as_slice())
        },
        None => interpolated,
    }
}

/// With none of its placeholders' variables set, interpolation leaves a text
/// unchanged.
pub proof fn lemma_interpolate_unset_is_identity(s: Seq<char>, env: Seq<(Seq<char>, Seq<char>)>)
    requires
        forall|k: int|
            0 <= k < placeholder_names(s).len() ==> lookup_first(
                env,
                #[trigger] placeholder_names(s)[k],
            ) is None,
    ensures
        interpolate(s, env) == s,
{
    lemma_substitute_unset(s, placeholder_names(s), env);
}

proof fn lemma_substitute_unset(
    text: Seq<char>,
    names: Seq<Seq<char>>,
    env: Seq<(Seq<char>, Seq<char>)>,
)
    requires
        forall|k: int| 0 <= k < names.len() ==> lookup_first(env, #[trigger] names[k]) is None,
    ensures
        substitute_names(text, names, env) == text,
    decreases names.len(),
{
    if names.len() > 0 {
        assert(lookup_first(env, names[0]) is None);
        assert forall|k: int| 0 <= k < names.drop_first().len() implies lookup_first(
            env,
            #[trigger] names.drop_first()[k],
        ) is None by {
            assert(names.drop_first()[k] == names[k + 1]);
        }
        lemma_substitute_unset(text, names.drop_first(), env);
    }
}

/// The text `s` from position `i` on with each placeholder, found left to
/// right, replaced by the value of its variable when the variable is set,
/// and all other text unchanged.
pub open spec fn expand_from(s: Seq<char>, i: nat, env: Seq<(Seq<char>, Seq<char>)>) -> Seq<char>
    decreases s.len() - i,
{
    if i >= s.len() {
        Seq::empty()
    } else {
        match placeholder_at(s, i) {
            Some(r) => {
                let name = s.subrange(i + 2int, i + 2int + r);
                (match lookup_first(env, name) {
                    Some(v) => v,
                    None => placeholder(name),
                }) + expand_from(s, i + 3 + r, env)
            },
            None => seq![s[i as int]] + expand_from(s, i + 1, env),
        }
    }
}

/// Each `$` of `s` that does not begin a placeholder ends the text or is
/// followed by a character other than `$` and `{`.
pub open spec fn stray_dollars_inert(s: Seq<char>) -> bool {
    forall|i: int|
        0 <= i < s.len() && #[trigger] s[i] == '$' && placeholder_at(s, i as nat) is None ==> i + 1 == s.len()
            || (s[i + 1] != '$' && s[i + 1] != '{')
}

/// No value of a variable contains `$`.
pub open spec fn values_without_dollar(env: Seq<(Seq<char>, Seq<char>)>) -> bool {
    forall|j: int, k: int| 0 <= j < env.len() && 0 <= k < env[j].1.len() ==> #[trigger] env[j].1[k] != '$'
}

spec fn is_name(n: Seq<char>) -> bool {
    forall|t: int| 0 <= t < n.len() ==> is_name_char(#[trigger] n[t])
}

proof fn lemma_name_run_chars(s: Seq<char>, j: nat)
    ensures
        j + name_run(s, j) <= s.len() || name_run(s, j) == 0,
        forall|t: int| j <= t < j + name_run(s, j) ==> is_name_char(#[trigger] s[t]) && t < s.len(),
    decreases s.len() - j,
{
    if j < s.len() && is_name_char(s[j as int]) {
        lemma_name_run_chars(s, j + 1);
    }
}

proof fn lemma_lookup_is_entry(env: Seq<(Seq<char>, Seq<char>)>, n: Seq<char>)
    ensures
        lookup_first(env, n) matches Some(v) ==> exists|j: int| 0 <= j < env.len() && env[j].1 == v,
    decreases env.len(),
{
    if env.len() > 0 && env[0].0 != n {
        lemma_lookup_is_entry(env.drop_first(), n);
        if lookup_first(env, n) is Some {
            let j = choose|j: int| 0 <= j < env.drop_first().len() && env.drop_first()[j].1 == lookup_first(env, n)->0;
            assert(env[j + 1].1 == lookup_first(env, n)->0);
        }
    } else if env.len() > 0 {
        assert(env[0].1 == lookup_first(env, n)->0);
    }
}

proof fn lemma_lookup_no_dollar(env: Seq<(Seq<char>, Seq<char>)>, n: Seq<char>)
    requires
        values_without_dollar(env),
    ensures
        lookup_first(env, n) matches Some(v) ==> forall|k: int| 0 <= k < v.len() ==> v[k] != '$',
{
    lemma_lookup_is_entry(env, n);
    if lookup_first(env, n) is Some {
        let v = lookup_first(env, n)->0;
        let j = choose|j: int| 0 <= j < env.len() && env[j].1 == v;
        assert forall|k: int| 0 <= k < v.len() implies v[k] != '$' by {
            assert(env[j].1[k] != '$');
        }
    }
}

/// Replacing in a text that begins with no occurrence of the pattern's first
/// character leaves that beginning in place.
proof fn lemma_replace_skips(a: Seq<char>, b: Seq<char>, from: Seq<char>, to: Seq<char>)
    requires
        from.len() > 0,
        forall|k: int| 0 <= k < a.len() ==> a[k] != from[0],
    ensures
        replace_all(a + b, from, to) == a + replace_all(b, from, to),
    decreases a.len(),
{
    if a.len() > 0 {
        let s = a + b;
        assert(s[0] == a[0]);
        if from.len() <= s.len() {
            assert(s.take(from.len() as int)[0] != from[0]);
        }
        assert(s.skip(1) =~= a.drop_first() + b);
        lemma_replace_skips(a.drop_first(), b, from, to);
        assert(a =~= seq![a[0]] + a.drop_first());
        assert(seq![a[0]] + (a.drop_first() + replace_all(b, from, to)) =~= a + replace_all(b, from, to));
    } else {
        assert(a + b =~= b);
        assert(a + replace_all(b, from, to) =~= replace_all(b, from, to));
    }
}

/// A text whose second character differs from the pattern's keeps its first
/// character in place.
proof fn lemma_replace_head(s: Seq<char>, from: Seq<char>, to: Seq<char>)
    requires
        s.len() > 0,
        from.len() > 1,
        s.len() >= 2 ==> s[1] != from[1],
    ensures
        replace_all(s, from, to) == seq![s[0]] + replace_all(s.skip(1), from, to),
{
    if from.len() <= s.len() {
        assert(s.take(from.len() as int)[1] == s[1]);
    }
}

/// An occurrence of another placeholder is left as it is.
proof fn lemma_replace_other_placeholder(m: Seq<char>, n: Seq<char>, b: Seq<char>, to: Seq<char>)
    requires
        is_name(m),
        is_name(n),
        m != n,
    ensures
        replace_all(placeholder(m) + b, placeholder(n), to) == placeholder(m) + replace_all(b, placeholder(n), to),
{
    let s = placeholder(m) + b;
    let pat = placeholder(n);
    let pm = placeholder(m);
    assert(pat.len() == n.len() + 3);
    if pat.len() <= s.len() && s.take(pat.len() as int) == pat {
        if m.len() == n.len() {
            assert forall|t: int| 0 <= t < m.len() implies m[t] == n[t] by {
                assert(s[t + 2] == pat[t + 2]);
                assert(s.take(pat.len() as int)[t + 2] == s[t + 2]);
            }
            assert(m =~= n);
        } else if m.len() < n.len() {
            let t = m.len() as int;
            assert(s[t + 2] == '}');
            assert(s.take(pat.len() as int)[t + 2] == s[t + 2]);
            assert(pat[t + 2] == n[t]);
            assert(is_name_char(n[t]));
        } else {
            let t = n.len() as int;
            assert(s[t + 2] == m[t]);
            assert(is_name_char(m[t]));
            assert(s.take(pat.len() as int)[t + 2] == s[t + 2]);
            assert(pat[t + 2] == '}');
        }
    }
    let rest = seq!['{'] + m + seq!['}'];
    assert(s.skip(1) =~= rest + b);
    assert forall|k: int| 0 <= k < rest.len() implies rest[k] != pat[0] by {
        if 0 < k < rest.len() - 1 {
            assert(rest[k] == m[k - 1]);
            assert(is_name_char(m[k - 1]));
        }
    }
    lemma_replace_skips(rest, b, pat, to);
    assert(pm =~= seq!['$'] + rest);
    assert(seq![s[0]] + (rest + replace_all(b, pat, to)) =~= pm + replace_all(b, pat, to));
}

proof fn lemma_replace_same_placeholder(n: Seq<char>, b: Seq<char>, to: Seq<char>)
    ensures
        replace_all(placeholder(n) + b, placeholder(n), to) == to + replace_all(b, placeholder(n), to),
{
    let s = placeholder(n) + b;
    let pat = placeholder(n);
    assert(s.take(pat.len() as int) =~= pat);
    assert(s.skip(pat.len() as int) =~= b);
}

proof fn lemma_names_are_names(s: Seq<char>, i: nat, k: int)
    requires
        0 <= k < placeholder_names_from(s, i).len(),
    ensures
        is_name(placeholder_names_from(s, i)[k]),
    decreases s.len() - i,
{
    if i < s.len() {
        match placeholder_at(s, i) {
            Some(r) => {
                lemma_name_run_chars(s, i + 2);
                let name = s.subrange(i + 2int, i + 2int + r);
                if k == 0 {
                    assert forall|t: int| 0 <= t < name.len() implies is_name_char(#[trigger] name[t]) by {
                        assert(name[t] == s[i + 2 + t]);
                    }
                } else {
                    lemma_names_are_names(s, i + 3 + r, k - 1);
                }
            },
            None => {
                lemma_names_are_names(s, i + 1, k);
            },
        }
    }
}

/// The text from position `i` on as it reads once the names in `done` have
/// been substituted: a placeholder whose name is done and whose variable is
/// set reads as the value, every other placeholder and character as itself.
spec fn render_from(s: Seq<char>, i: nat, done: Seq<Seq<char>>, env: Seq<(Seq<char>, Seq<char>)>) -> Seq<char>
    decreases s.len() - i,
{
    if i >= s.len() {
        Seq::empty()
    } else {
        match placeholder_at(s, i) {
            Some(r) => {
                let name = s.subrange(i + 2int, i + 2int + r);
                (if done.contains(name) && lookup_first(env, name) is Some {
                    lookup_first(env, name)->0
                } else {
                    placeholder(name)
                }) + render_from(s, i + 3 + r, done, env)
            },
            None => seq![s[i as int]] + render_from(s, i + 1, done, env),
        }
    }
}

proof fn lemma_render_nothing_done(s: Seq<char>, i: nat, env: Seq<(Seq<char>, Seq<char>)>)
    requires
        i <= s.len(),
    ensures
        render_from(s, i, Seq::empty(), env) == s.skip(i as int),
    decreases s.len() - i,
{
    if i >= s.len() {
        assert(s.skip(i as int) =~= Seq::<char>::empty());
    } else {
        match placeholder_at(s, i) {
            Some(r) => {
                lemma_name_run_chars(s, i + 2);
                lemma_render_nothing_done(s, i + 3 + r, env);
                let name = s.subrange(i + 2int, i + 2int + r);
                assert(!Seq::<Seq<char>>::empty().contains(name));
                assert(s.skip(i as int) =~= placeholder(name) + s.skip((i + 3 + r) as int));
            },
            None => {
                lemma_render_nothing_done(s, i + 1, env);
                assert(s.skip(i as int) =~= seq![s[i as int]] + s.skip((i + 1) as int));
            },
        }
    }
}

/// One substitution step on a rendered text renders with one more name done.
proof fn lemma_render_step(
    s: Seq<char>,
    i: nat,
    done: Seq<Seq<char>>,
    env: Seq<(Seq<char>, Seq<char>)>,
    n: Seq<char>,
)
    requires
        i <= s.len(),
        stray_dollars_inert(s),
        is_name(n),
        values_without_dollar(env),
    ensures
        lookup_first(env, n) matches Some(v) ==> replace_all(render_from(s, i, done, env), placeholder(n), v)
            == render_from(s, i, done.push(n), env),
        lookup_first(env, n) is None ==> render_from(s, i, done, env) == render_from(s, i, done.push(n), env),
    decreases s.len() - i,
{
    if i >= s.len() {
        return;
    }
    let d2 = done.push(n);
    assert forall|m: Seq<char>| m != n implies d2.contains(m) == done.contains(m) by {
        if d2.contains(m) {
            let k = choose|k: int| 0 <= k < d2.len() && d2[k] == m;
            assert(k < done.len());
            assert(done[k] == m);
        }
        if done.contains(m) {
            let k = choose|k: int| 0 <= k < done.len() && done[k] == m;
            assert(d2[k] == m);
        }
    }
    assert(d2[done.len() as int] == n);
    assert(d2.contains(n));
    match placeholder_at(s, i) {
        Some(r) => {
            let next = i + 3 + r;
            lemma_name_run_chars(s, i + 2);
            lemma_render_step(s, next, done, env, n);
            let m = s.subrange(i + 2int, i + 2int + r);
            assert(is_name(m)) by {
                assert forall|t: int| 0 <= t < m.len() implies is_name_char(#[trigger] m[t]) by {
                    assert(m[t] == s[i + 2 + t]);
                }
            }
            let shown = if done.contains(m) && lookup_first(env, m) is Some {
                lookup_first(env, m)->0
            } else {
                placeholder(m)
            };
            let tail = render_from(s, next, done, env);
            assert(render_from(s, i, done, env) == shown + tail);
            match lookup_first(env, n) {
                Some(v) => {
                    let pat = placeholder(n);
                    if done.contains(m) && lookup_first(env, m) is Some {
                        lemma_lookup_no_dollar(env, m);
                        lemma_replace_skips(shown, tail, pat, v);
                    } else if m == n {
                        lemma_replace_same_placeholder(n, tail, v);
                    } else {
                        lemma_replace_other_placeholder(m, n, tail, v);
                    }
                },
                None => {},
            }
        },
        None => {
            let next = i + 1;
            lemma_render_step(s, next, done, env, n);
            let tail = render_from(s, next, done, env);
            match lookup_first(env, n) {
                Some(v) => {
                    let pat = placeholder(n);
                    if s[i as int] != '$' {
                        lemma_replace_skips(seq![s[i as int]], tail, pat, v);
                    } else {
                        let t = seq![s[i as int]] + tail;
                        assert(t.skip(1) =~= tail);
                        assert(pat[1] == '{');
                        if next < s.len() {
                            assert(s[next as int] != '$' && s[next as int] != '{');
                            assert(placeholder_at(s, next) is None);
                            assert(tail == seq![s[next as int]] + render_from(s, next + 1, done, env));
                            assert(t[1] == s[next as int]);
                        }
                        lemma_replace_head(t, pat, v);
                    }
                },
                None => {},
            }
        },
    }
}

proof fn lemma_render_substitute(
    s: Seq<char>,
    done: Seq<Seq<char>>,
    names: Seq<Seq<char>>,
    env: Seq<(Seq<char>, Seq<char>)>,
)
    requires
        stray_dollars_inert(s),
        forall|k: int| 0 <= k < names.len() ==> is_name(#[trigger] names[k]),
        values_without_dollar(env),
    ensures
        substitute_names(render_from(s, 0, done, env), names, env) == render_from(s, 0, done + names, env),
    decreases names.len(),
{
    if names.len() == 0 {
        assert(done + names =~= done);
    } else {
        let n = names[0];
        lemma_render_step(s, 0, done, env, n);
        assert forall|k: int| 0 <= k < names.drop_first().len() implies is_name(
            #[trigger] names.drop_first()[k],
        ) by {
            assert(names.drop_first()[k] == names[k + 1]);
        }
        lemma_render_substitute(s, done.push(n), names.drop_first(), env);
        assert(done.push(n) + names.drop_first() =~= done + names);
    }
}

proof fn lemma_render_all_done(s: Seq<char>, i: nat, done: Seq<Seq<char>>, env: Seq<(Seq<char>, Seq<char>)>)
    requires
        forall|k: int|
            0 <= k < placeholder_names_from(s, i).len() ==> done.contains(
                #[trigger] placeholder_names_from(s, i)[k],
            ),
    ensures
        render_from(s, i, done, env) == expand_from(s, i, env),
    decreases s.len() - i,
{
    if i < s.len() {
        match placeholder_at(s, i) {
            Some(r) => {
                let next = i + 3 + r;
                let names = placeholder_names_from(s, i);
                let name = s.subrange(i + 2int, i + 2int + r);
                assert(names[0] == name);
                assert forall|k: int|
                    0 <= k < placeholder_names_from(s, next).len() implies done.contains(
                        #[trigger] placeholder_names_from(s, next)[k],
                    ) by {
                    assert(placeholder_names_from(s, next)[k] == names[k + 1]);
                }
                lemma_render_all_done(s, next, done, env);
            },
            None => {
                assert(placeholder_names_from(s, i) == placeholder_names_from(s, i + 1));
                lemma_render_all_done(s, i + 1, done, env);
            },
        }
    }
}

/// When every `$` of a text that begins no placeholder is followed by
/// neither `$` nor `{`, and no variable's value contains `$`, interpolation
/// replaces each placeholder of a set variable by its value, left to right,
/// and leaves all other text unchanged.
pub proof fn lemma_interpolate_replaces_each_placeholder(s: Seq<char>, env: Seq<(Seq<char>, Seq<char>)>)
    requires
        stray_dollars_inert(s),
        values_without_dollar(env),
    ensures
        interpolate(s, env) == expand_from(s, 0, env),
{
    let names = placeholder_names(s);
    lemma_render_nothing_done(s, 0, env);
    assert(s.skip(0) =~= s);
    assert forall|k: int| 0 <= k < names.len() implies is_name(#[trigger] names[k]) by {
        lemma_names_are_names(s, 0, k);
    }
    lemma_render_substitute(s, Seq::empty(), names, env);
    assert(Seq::<Seq<char>>::empty() + names =~= names);
    assert forall|k: int| 0 <= k < names.len() implies names.contains(#[trigger] names[k]) by {}
    lemma_render_all_done(s, 0, names, env);
}

} // verus!
