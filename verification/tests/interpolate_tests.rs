use devendra::interpolate::{env_var_names, interpolate_env_vars, lookup_value, render_template};

fn env(pairs: &[(&str, &str)]) -> Vec<(String, String)> {
    pairs.iter().map(|(k, v)| (k.to_string(), v.to_string())).collect()
}

#[test]
fn names_follow_the_placeholder_grammar() {
    let names = env_var_names("${HOME}/x $USER ${1BAD} ${_ok9}${a-b} ${HOME} ${ } ${NOEND");
    assert_eq!(names, vec!["HOME".to_string(), "_ok9".to_string(), "HOME".to_string()]);
}

#[test]
fn names_of_text_without_placeholders() {
    assert!(env_var_names("plain text $ { }").is_empty());
    assert!(env_var_names("").is_empty());
}

#[test]
fn set_variables_are_substituted() {
    let e = env(&[("HOME", "/root"), ("USER", "admin")]);
    assert_eq!(interpolate_env_vars("${HOME}/.config/${USER}", &e), "/root/.config/admin");
}

#[test]
fn unset_variables_are_left_in_place() {
    let e = env(&[("HOME", "/root")]);
    assert_eq!(interpolate_env_vars("${HOME}:${MISSING}", &e), "/root:${MISSING}");
}

#[test]
fn nothing_set_leaves_text_unchanged() {
    let e = env(&[]);
    let s = "a ${X} b ${Y_1}";
    assert_eq!(interpolate_env_vars(s, &e), s);
}

#[test]
fn every_occurrence_is_replaced() {
    let e = env(&[("A", "1")]);
    assert_eq!(interpolate_env_vars("${A}${A}-${A}", &e), "11-1");
}

#[test]
fn substituted_values_are_seen_by_later_placeholders() {
    let e = env(&[("A", "${B}"), ("B", "x")]);
    assert_eq!(interpolate_env_vars("${A} ${B}", &e), "x x");
}

#[test]
fn first_entry_for_a_name_counts() {
    let e = env(&[("A", "first"), ("A", "second")]);
    assert_eq!(lookup_value(&e, &"A".to_string()), Some(&"first".to_string()));
    assert_eq!(interpolate_env_vars("${A}", &e), "first");
}

#[test]
fn template_gets_environment_then_variables() {
    let e = env(&[("HOST", "web1")]);
    let vars = Some(env(&[("port", "8080"), ("name", "site")]));
    let out = render_template("host=${HOST} port=${port} name=${name} other=${other}", &e, &vars);
    assert_eq!(out, "host=web1 port=8080 name=site other=${other}");
}

#[test]
fn template_variable_keys_need_not_be_names() {
    let vars = Some(env(&[("my-key", "v")]));
    assert_eq!(render_template("${my-key}", &env(&[]), &vars), "v");
}

#[test]
fn template_without_variables() {
    assert_eq!(render_template("x=${X}", &env(&[("X", "1")]), &None), "x=1");
}

#[test]
fn placeholders_replaced_in_place_when_values_are_plain() {
    let e = env(&[("USER", "admin"), ("HOME", "/home/admin")]);
    assert_eq!(interpolate_env_vars("{${USER}} at ${HOME}: ${MISSING}", &e), "{admin} at /home/admin: ${MISSING}");
}

#[test]
fn stray_dollar_brace_can_form_a_new_placeholder() {
    let e = env(&[("A", "B"), ("B", "x")]);
    // Replacing ${A} turns the outer "${" and "}" into ${B}, which is then
    // replaced too; the text is not each placeholder replaced in place.
    assert_eq!(interpolate_env_vars("${${A}} ${B}", &e), "x x");
}

#[test]
fn stray_dollars_stay_in_place() {
    let e = env(&[("A", "{a}"), ("B", "b")]);
    assert_eq!(interpolate_env_vars("$x${A} costs $5 ${B}$", &e), "$x{a} costs $5 b$");
}
