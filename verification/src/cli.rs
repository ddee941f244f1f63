//! The command-line client: which command the arguments ask for, the
//! request it makes of the API, and the lines it prints of the answer.
//! Reading files, the environment and the network is the program's part.
use vstd::prelude::*;

use crate::json::{is_text, json_bool, json_get, json_i64, json_text, json_u64, texts, Json};
use crate::text::{
    byte_len, chars_of, concat, find, push_decimal, push_signed, push_str, signed_decimal, split, split_once,
    split_once_str, split_str, strip_prefix, strip_prefix_str, texts_view, trim, trimmed,
};

verus! {

/// The file `setup` writes and every other command looks for.
pub const SETUP_FILE: &'static str = "heimdall.yaml";

/// The text of an optional string.
pub open spec fn opt_text(o: Option<String>) -> Option<Seq<char>> {
    match o {
        Some(s) => Some(s@),
        None => None,
    }
}

/// The project a setup file names, if there is a file.
pub open spec fn setup_project(file: Option<Setup>) -> Option<Seq<char>> {
    match file {
        Some(s) => Some(s.project@),
        None => None,
    }
}

/// The environment a setup file names, if there is a file.
pub open spec fn setup_env(file: Option<Setup>) -> Option<Seq<char>> {
    match file {
        Some(s) => Some(s.env@),
        None => None,
    }
}

/// The texts of a list of string slices.
pub open spec fn strs_view(v: Seq<&str>) -> Seq<Seq<char>> {
    v.map_values(|s: &str| s@)
}

// ---------------------------------------------------------------------------
// Flags
// ---------------------------------------------------------------------------

/// The value of the flag `name` from `args[i]` on: the argument after the
/// first `name`, or what follows `name=`; `None` when `name` is last.
pub open spec fn flag_from(args: Seq<Seq<char>>, name: Seq<char>, i: int) -> Option<Seq<char>>
    decreases args.len() - i,
{
    if i < 0 || i >= args.len() {
        None
    } else if args[i] == name {
        if i + 1 < args.len() {
            Some(args[i + 1])
        } else {
            None
        }
    } else if strip_prefix(args[i], name + "="@) is Some {
        strip_prefix(args[i], name + "="@)
    } else {
        flag_from(args, name, i + 1)
    }
}

/// The value of the flag `name` in `args`.
pub open spec fn flag_spec(args: Seq<Seq<char>>, name: Seq<char>) -> Option<Seq<char>> {
    flag_from(args, name, 0)
}

/// The value of the flag `name`: `--name value` or `--name=value`.
pub fn flag(args: &[String], name: &str) -> (r: Option<String>)
    ensures
        r matches Some(v) ==> flag_spec(texts_view(args@), name@) == Some(v@),
        r is None ==> flag_spec(texts_view(args@), name@) is None,
{
    let prefix = concat(name, "=");
    let ghost a = texts_view(args@);
    let n = args.len();
    let mut i: usize = 0;
    while i < n
        invariant
            i <= n == args@.len() == a.len(),
            a == texts_view(args@),
            prefix@ == name@ + "="@,
            flag_spec(a, name@) == flag_from(a, name@, i as int),
        decreases n - i,
    {
        assert(a[i as int] == args@[i as int]@);
        if crate::text::same(args[i].as_str(), name) {
            if i + 1 < n {
                assert(a[i + 1] == args@[i + 1]@);
                return Some(args[i + 1].clone());
            }
            return None;
        }
        match strip_prefix_str(args[i].as_str(), prefix.as_str()) {
            Some(value) => {
                return Some(value);
            },
            None => {},
        }
        i = i + 1;
    }
    None
}

/// The flag `name`, or an error naming it.
pub fn required(args: &[String], name: &str) -> (r: Result<String, String>)
    ensures
        r matches Ok(v) ==> flag_spec(texts_view(args@), name@) == Some(v@),
        r matches Err(m) ==> flag_spec(texts_view(args@), name@) is None && m@ == "falta "@
            + name@,
{
    match flag(args, name) {
        Some(v) => Ok(v),
        None => Err(concat("falta ", name)),
    }
}

/// The first of `names` given as a flag, else `fallback`.
pub open spec fn pick_spec(
    args: Seq<Seq<char>>,
    names: Seq<Seq<char>>,
    fallback: Option<Seq<char>>,
) -> Option<Seq<char>>
    decreases names.len(),
{
    if names.len() == 0 {
        fallback
    } else if flag_spec(args, names[0]) is Some {
        flag_spec(args, names[0])
    } else {
        pick_spec(args, names.drop_first(), fallback)
    }
}

/// The first of the flags `names` that is given; `fallback` when none is.
pub fn pick(args: &[String], names: &[&str], fallback: Option<String>) -> (r: Option<String>)
    ensures
        r matches Some(v) ==> pick_spec(texts_view(args@), strs_view(names@), opt_text(fallback)) == Some(v@),
        r is None ==> pick_spec(texts_view(args@), strs_view(names@), opt_text(fallback))
            is None,
{
    let ghost ns = strs_view(names@);
    let ghost fb = opt_text(fallback);
    let n = names.len();
    let mut i: usize = 0;
    assert(ns.skip(0) =~= ns);
    while i < n
        invariant
            i <= n == names@.len() == ns.len(),
            ns == strs_view(names@),
            fb == opt_text(fallback),
            pick_spec(texts_view(args@), ns, fb) == pick_spec(
                texts_view(args@),
                ns.skip(i as int),
                fb,
            ),
        decreases n - i,
    {
        assert(ns.skip(i as int)[0] == names@[i as int]@);
        assert(ns.skip(i as int).drop_first() =~= ns.skip(i + 1));
        match flag(args, names[i]) {
            Some(v) => {
                return Some(v);
            },
            None => {},
        }
        i = i + 1;
    }
    fallback
}

// ---------------------------------------------------------------------------
// The setup file
// ---------------------------------------------------------------------------

/// The project and environment that `heimdall.yaml` names.
#[derive(Clone, Debug, PartialEq)]
pub struct Setup {
    pub project: String,
    pub env: String,
}

/// What `setup` writes.
pub open spec fn setup_body_spec(project: Seq<char>, env: Seq<char>) -> Seq<char> {
    "setup:\n  - project: "@ + project + "\n    config: "@ + env + "\n"@
}

/// The text of `heimdall.yaml` for a project and an environment.
pub fn setup_body(project: &str, env: &str) -> (r: String)
    ensures
        r@ == setup_body_spec(project@, env@),
{
    let mut r = String::from_str("setup:\n  - project: ");
    push_str(&mut r, project);
    push_str(&mut r, "\n    config: ");
    push_str(&mut r, env);
    push_str(&mut r, "\n");
    r
}

/// A line without one trailing `\r`.
pub open spec fn strip_cr(line: Seq<char>) -> Seq<char> {
    if line.len() > 0 && line.last() == '\r' {
        line.drop_last()
    } else {
        line
    }
}

/// `str::lines`: the pieces between `\n`, each without a trailing `\r`, and
/// no empty piece after a final `\n`.
pub open spec fn lines_spec(text: Seq<char>) -> Seq<Seq<char>> {
    let pieces = split(text, '\n');
    let body = pieces.drop_last().map_values(|p: Seq<char>| strip_cr(p));
    if pieces.last().len() == 0 {
        body
    } else {
        body.push(pieces.last())
    }
}

/// The line without leading `-` characters.
pub open spec fn skip_dashes(s: Seq<char>, i: int) -> int
    decreases s.len() - i,
{
    if 0 <= i < s.len() && s[i] == '-' {
        skip_dashes(s, i + 1)
    } else {
        i
    }
}

/// What a line of the setup file says of `key`: trimmed, dashes dropped,
/// trimmed again, then `key:` and the trimmed rest.
pub open spec fn yaml_line(line: Seq<char>, key: Seq<char>) -> Option<Seq<char>> {
    let t = trim(line);
    let u = trim(t.subrange(skip_dashes(t, 0), t.len() as int));
    match strip_prefix(u, key + ":"@) {
        Some(v) => Some(trim(v)),
        None => None,
    }
}

/// The first line that says something of `key`.
pub open spec fn yaml_first(lines: Seq<Seq<char>>, key: Seq<char>) -> Option<Seq<char>>
    decreases lines.len(),
{
    if lines.len() == 0 {
        None
    } else if yaml_line(lines[0], key) is Some {
        yaml_line(lines[0], key)
    } else {
        yaml_first(lines.drop_first(), key)
    }
}

/// A name the setup file carries unchanged: not empty, and no whitespace, so
/// no line break either.
pub open spec fn plain_word(s: Seq<char>) -> bool {
    s.len() > 0 && forall|k: int| 0 <= k < s.len() ==> !crate::text::is_white(#[trigger] s[k])
}

proof fn lemma_no_newline(s: Seq<char>)
    requires
        forall|k: int| 0 <= k < s.len() ==> !crate::text::is_white(#[trigger] s[k]),
    ensures
        forall|k: int| 0 <= k < s.len() ==> #[trigger] s[k] != '\n',
{
    assert forall|k: int| 0 <= k < s.len() implies #[trigger] s[k] != '\n' by {
        assert(!crate::text::is_white(s[k]));
    }
}

proof fn lemma_setup_lines(project: Seq<char>, env: Seq<char>)
    requires
        plain_word(project),
        plain_word(env),
    ensures
        lines_spec(setup_body_spec(project, env)) == seq![
            "setup:"@,
            "  - project: "@ + project,
            "    config: "@ + env,
        ],
{
    reveal_strlit("setup:\n  - project: ");
    reveal_strlit("\n    config: ");
    reveal_strlit("\n");
    reveal_strlit("setup:");
    reveal_strlit("  - project: ");
    reveal_strlit("    config: ");
    let l0 = "setup:"@;
    let l1 = "  - project: "@ + project;
    let l2 = "    config: "@ + env;
    let t2 = l0.push('\n');
    let t4 = (t2 + l1).push('\n');
    let t6 = (t4 + l2).push('\n');
    assert(setup_body_spec(project, env) =~= t6);
    lemma_no_newline(project);
    lemma_no_newline(env);
    assert forall|k: int| 0 <= k < l0.len() implies #[trigger] l0[k] != '\n' by {}
    assert forall|k: int| 0 <= k < l1.len() implies #[trigger] l1[k] != '\n' by {
        if k >= 13 {
            assert(l1[k] == project[k - 13]);
        }
    }
    assert forall|k: int| 0 <= k < l2.len() implies #[trigger] l2[k] != '\n' by {
        if k >= 12 {
            assert(l2[k] == env[k - 12]);
        }
    }
    let e = Seq::<char>::empty();
    crate::text::lemma_split_append(e, l0, '\n');
    assert(e + l0 =~= l0);
    assert(split(l0, '\n') =~= seq![l0]);
    crate::text::lemma_split_push_sep(l0, '\n');
    crate::text::lemma_split_append(t2, l1, '\n');
    assert(split(t2 + l1, '\n') =~= seq![l0, l1]);
    crate::text::lemma_split_push_sep(t2 + l1, '\n');
    crate::text::lemma_split_append(t4, l2, '\n');
    assert(split(t4 + l2, '\n') =~= seq![l0, l1, l2]);
    crate::text::lemma_split_push_sep(t4 + l2, '\n');
    let pieces = split(t6, '\n');
    assert(pieces =~= seq![l0, l1, l2, e]);
    assert(l1.last() == project.last());
    assert(l2.last() == env.last());
    assert(!crate::text::is_white(project.last()));
    assert(!crate::text::is_white(env.last()));
    assert(pieces.drop_last().map_values(|p: Seq<char>| strip_cr(p)) =~= seq![l0, l1, l2]);
}

proof fn lemma_key_line(w: Seq<char>, key: Seq<char>, value: Seq<char>)
    requires
        forall|k: int| 0 <= k < w.len() ==> crate::text::is_white(#[trigger] w[k]),
        key.len() > 0,
        key[0] != '-',
        plain_word(key),
        plain_word(value),
    ensures
        yaml_line(w + key + ": "@ + value, key) == Some(value),
{
    reveal_strlit(": ");
    reveal_strlit(":");
    reveal_strlit(" ");
    let x = key + ": "@ + value;
    assert(w + key + ": "@ + value =~= w + x);
    assert(x[0] == key[0]);
    assert(x.last() == value.last());
    crate::text::lemma_trim_padded(w, x);
    assert(skip_dashes(x, 0) == 0);
    assert(x.subrange(0, x.len() as int) =~= x);
    crate::text::lemma_trim_unchanged(x);
    let prefix = key + ":"@;
    assert(x.subrange(0, prefix.len() as int) =~= prefix);
    assert(x.subrange(prefix.len() as int, x.len() as int) =~= " "@ + value);
    assert forall|k: int| 0 <= k < " "@.len() implies crate::text::is_white(#[trigger] " "@[k]) by {}
    crate::text::lemma_trim_padded(" "@, value);
}

/// What `setup` writes, the setup file gives back: the project under
/// `project:` and the environment under `config:`.
pub proof fn lemma_setup_reads_back(project: Seq<char>, env: Seq<char>)
    requires
        plain_word(project),
        plain_word(env),
    ensures
        yaml_first(lines_spec(setup_body_spec(project, env)), "project"@) == Some(project),
        yaml_first(lines_spec(setup_body_spec(project, env)), "config"@) == Some(env),
{
    lemma_setup_lines(project, env);
    reveal_strlit("setup:");
    reveal_strlit("  - project: ");
    reveal_strlit("    config: ");
    reveal_strlit("project");
    reveal_strlit("config");
    reveal_strlit(":");
    reveal_strlit(": ");
    reveal_strlit("- ");
    reveal_strlit(" ");
    reveal_strlit("  ");
    reveal_strlit("    ");
    let l0 = "setup:"@;
    let l1 = "  - project: "@ + project;
    let l2 = "    config: "@ + env;
    let lines = seq![l0, l1, l2];
    // The first line names neither key.
    crate::text::lemma_trim_unchanged(l0);
    assert(skip_dashes(l0, 0) == 0);
    assert(l0.subrange(0, l0.len() as int) =~= l0);
    assert(yaml_line(l0, "project"@) is None);
    assert(yaml_line(l0, "config"@) is None);
    // The second line gives the project, and no environment.
    let y1 = "project"@ + ": "@ + project;
    let x1 = "- "@ + y1;
    assert(l1 =~= "  "@ + x1);
    assert forall|k: int| 0 <= k < "  "@.len() implies crate::text::is_white(#[trigger] "  "@[k]) by {}
    assert(x1.last() == project.last());
    assert(x1[0] == '-');
    crate::text::lemma_trim_padded("  "@, x1);
    assert(x1[1] == ' ');
    assert(skip_dashes(x1, 1) == 1);
    assert(skip_dashes(x1, 0) == 1);
    assert(x1.subrange(1, x1.len() as int) =~= " "@ + y1);
    assert forall|k: int| 0 <= k < " "@.len() implies crate::text::is_white(#[trigger] " "@[k]) by {}
    assert(y1[0] == 'p');
    assert(y1.last() == project.last());
    crate::text::lemma_trim_padded(" "@, y1);
    let pk = "project"@ + ":"@;
    assert(y1.subrange(0, pk.len() as int) =~= pk);
    assert(y1.subrange(pk.len() as int, y1.len() as int) =~= " "@ + project);
    crate::text::lemma_trim_padded(" "@, project);
    assert(yaml_line(l1, "project"@) == Some(project));
    assert(("config"@ + ":"@)[0] == 'c');
    assert(y1.subrange(0, 7)[0] == 'p');
    assert(yaml_line(l1, "config"@) is None);
    // The third line gives the environment.
    assert(l2 =~= "    "@ + "config"@ + ": "@ + env);
    assert forall|k: int| 0 <= k < "    "@.len() implies crate::text::is_white(#[trigger] "    "@[k]) by {}
    lemma_key_line("    "@, "config"@, env);
    assert(yaml_line(l2, "config"@) == Some(env));
    assert(lines.drop_first() =~= seq![l1, l2]);
    assert(lines.drop_first().drop_first() =~= seq![l2]);
    assert(yaml_first(seq![l2], "config"@) == Some(env));
    assert(yaml_first(seq![l1, l2], "config"@) == Some(env));
    assert(yaml_first(seq![l1, l2], "project"@) == Some(project));
}

/// The lines of `text`.
pub fn lines_of(text: &str) -> (r: Vec<String>)
    ensures
        texts_view(r@) == lines_spec(text@),
{
    let pieces = split_str(text, '\n');
    let ghost ps = split(text@, '\n');
    proof {
        crate::text::lemma_split_nonempty(text@, '\n');
    }
    let n = pieces.len();
    let mut out: Vec<String> = Vec::new();
    for i in 0..n - 1
        invariant
            n == pieces@.len() == ps.len() >= 1,
            forall|k: int| 0 <= k < n ==> #[trigger] pieces@[k]@ == ps[k],
            texts_view(out@) == ps.drop_last().take(i as int).map_values(
                |p: Seq<char>| strip_cr(p),
            ),
    {
        let v = chars_of(pieces[i].as_str());
        let m = v.len();
        let line = if m > 0 && v[m - 1] == '\r' {
            crate::text::string_between(&v, 0, m - 1)
        } else {
            pieces[i].clone()
        };
        proof {
            if m > 0 && v@[m - 1] == '\r' {
                assert(v@.subrange(0, m - 1) =~= v@.drop_last());
            }
        }
        let ghost before = out@;
        out.push(line);
        assert(texts_view(out@) =~= texts_view(before).push(strip_cr(ps[i as int])));
        assert(ps.drop_last().take(i + 1) =~= ps.drop_last().take(i as int).push(ps[i as int]));
    }
    assert(ps.drop_last().take(n - 1) =~= ps.drop_last());
    if !pieces[n - 1].as_str().is_empty() {
        let ghost before = out@;
        out.push(pieces[n - 1].clone());
        assert(texts_view(out@) =~= texts_view(before).push(ps.last()));
    }
    out
}

fn yaml_line_value(line: &str, key: &str) -> (r: Option<String>)
    ensures
        r matches Some(v) ==> yaml_line(line@, key@) == Some(v@),
        r is None ==> yaml_line(line@, key@) is None,
{
    let t = trimmed(line);
    let v = chars_of(t.as_str());
    let n = v.len();
    let mut i: usize = 0;
    while i < n && v[i] == '-'
        invariant
            i <= n == v@.len(),
            skip_dashes(v@, 0) == skip_dashes(v@, i as int),
        decreases n - i,
    {
        i = i + 1;
    }
    let rest = crate::text::string_between(&v, i, n);
    let u = trimmed(rest.as_str());
    let prefix = concat(key, ":");
    match strip_prefix_str(u.as_str(), prefix.as_str()) {
        Some(value) => Some(trimmed(value.as_str())),
        None => None,
    }
}

/// What the setup file `text` says of `key` (`project:` or `config:`).
pub fn yaml_value(text: &str, key: &str) -> (r: Option<String>)
    ensures
        r matches Some(v) ==> yaml_first(lines_spec(text@), key@) == Some(v@),
        r is None ==> yaml_first(lines_spec(text@), key@) is None,
{
    let lines = lines_of(text);
    let ghost ls = lines_spec(text@);
    let n = lines.len();
    let mut i: usize = 0;
    assert(ls.skip(0) =~= ls);
    while i < n
        invariant
            i <= n == lines@.len() == ls.len(),
            ls == texts_view(lines@),
            ls == lines_spec(text@),
            yaml_first(ls, key@) == yaml_first(ls.skip(i as int), key@),
        decreases n - i,
    {
        assert(ls.skip(i as int)[0] == lines@[i as int]@);
        assert(ls.skip(i as int).drop_first() =~= ls.skip(i + 1));
        match yaml_line_value(lines[i].as_str(), key) {
            Some(v) => {
                assert(ls[i as int] == lines@[i as int]@);
                assert(ls.skip(i as int).len() > 0);
                return Some(v);
            },
            None => {},
        }
        i = i + 1;
    }
    None
}

/// The project and environment of a setup file's text, when it names both.
pub fn read_setup(text: &str) -> (r: Option<Setup>)
    ensures
        r matches Some(s) ==> yaml_first(lines_spec(text@), "project"@) == Some(s.project@)
            && yaml_first(lines_spec(text@), "config"@) == Some(s.env@),
        r is None ==> yaml_first(lines_spec(text@), "project"@) is None || yaml_first(
            lines_spec(text@),
            "config"@,
        ) is None,
{
    let project = yaml_value(text, "project")?;
    let env = yaml_value(text, "config")?;
    Some(Setup { project, env })
}

/// The project and environment of a command: from the flags, else from the
/// setup file.
pub fn scope(args: &[String], file: &Option<Setup>) -> (r: Result<(String, String), String>)
    ensures
        r is Ok <==> scope_spec(texts_view(args@), *file) is Some,
        r matches Ok(pe) ==> scope_spec(texts_view(args@), *file) == Some((pe.0@, pe.1@)),
        r matches Err(m) ==> m@ == scope_error(texts_view(args@), *file),
{
    let project_names: [&str; 2] = ["--project", "-p"];
    let env_names: [&str; 3] = ["--config", "-c", "--env"];
    assert(strs_view(project_names@) =~= seq!["--project"@, "-p"@]);
    assert(strs_view(env_names@) =~= seq!["--config"@, "-c"@, "--env"@]);
    let fb_project = match file {
        Some(s) => Some(s.project.clone()),
        None => None,
    };
    let fb_env = match file {
        Some(s) => Some(s.env.clone()),
        None => None,
    };
    let project = match pick(args, project_names.as_slice(), fb_project) {
        Some(p) => p,
        None => {
            return Err(
                String::from_str("falta el proyecto: pasá --project, o corré «heimdall setup»"),
            );
        },
    };
    let env = match pick(args, env_names.as_slice(), fb_env) {
        Some(e) => e,
        None => {
            return Err(
                String::from_str("falta el entorno: pasá --config, o corré «heimdall setup»"),
            );
        },
    };
    Ok((project, env))
}

// ---------------------------------------------------------------------------
// Durations
// ---------------------------------------------------------------------------

/// The seconds in a unit of `--ttl`.
pub open spec fn unit_seconds(c: char) -> Option<int> {
    if c == 's' {
        Some(1)
    } else if c == 'm' {
        Some(60)
    } else if c == 'h' {
        Some(3600)
    } else if c == 'd' {
        Some(86400)
    } else {
        None
    }
}

/// A duration such as `30s`, `15m`, `2h` or `7d` in seconds: an `i64`
/// followed by one unit letter; `None` when it is not one, or the seconds do
/// not fit in an `i64`.
pub open spec fn ttl_spec(text: Seq<char>) -> Option<int> {
    if text.len() < 2 {
        None
    } else {
        match (
            crate::text::parse_bounded(text.drop_last(), true, i64::MIN as int, i64::MAX as int),
            unit_seconds(text.last()),
        ) {
            (Some(v), Some(u)) => if i64::MIN <= v * u <= i64::MAX {
                Some(v * u)
            } else {
                None
            },
            _ => None,
        }
    }
}

/// Whether `s` ends in a character of one byte, so that cutting its last
/// byte off falls on a character boundary.
pub open spec fn last_is_ascii(s: Seq<char>) -> bool {
    s.len() > 0 && '\0' <= s.last() <= '\u{7f}'
}

/// The durations that cannot be read at all: of two bytes or more, either
/// the last byte falls inside a character, or the seconds overflow an `i64`.
pub open spec fn ttl_breaks(text: Seq<char>) -> bool {
    &&& byte_len(text) >= 2
    &&& (!last_is_ascii(text) || match (
        crate::text::parse_bounded(text.drop_last(), true, i64::MIN as int, i64::MAX as int),
        unit_seconds(text.last()),
    ) {
        (Some(v), Some(u)) => !(i64::MIN <= v * u <= i64::MAX),
        _ => false,
    })
}

/// What a duration that is not one is refused with.
pub open spec fn ttl_error(text: Seq<char>) -> Seq<char> {
    if byte_len(text) < 2 {
        "«"@ + text + "»: usá un número y s, m, h o d"@
    } else if crate::text::parse_bounded(
        text.drop_last(),
        true,
        i64::MIN as int,
        i64::MAX as int,
    ) is None {
        "«"@ + text + "» no tiene un número adelante"@
    } else {
        "«"@ + text + "»: usá s, m, h o d"@
    }
}

proof fn lemma_one_ascii_byte(s: Seq<char>)
    requires
        s.len() == 1,
        last_is_ascii(s),
    ensures
        byte_len(s) == 1,
{
    assert forall|i: int| 0 <= i < s.len() implies '\0' <= #[trigger] s[i] <= '\u{7f}' by {
        assert(s[i] == s.last());
    }
    vstd::utf8::is_ascii_chars_encode_utf8(s);
}

/// Whether `text` is a duration that cannot be read at all.
pub fn ttl_breaks_on(text: &str) -> (r: bool)
    ensures
        r == ttl_breaks(text@),
{
    let bytes = text.as_bytes().len();
    if bytes < 2 {
        return false;
    }
    let v = chars_of(text);
    let n = v.len();
    if n == 0 || !('\0' <= v[n - 1] && v[n - 1] <= '\u{7f}') {
        return true;
    }
    let number = crate::text::string_between(&v, 0, n - 1);
    assert(number@ == text@.drop_last());
    let value = match crate::text::parse_int(
        number.as_str(),
        true,
        9_223_372_036_854_775_808u64,
        9_223_372_036_854_775_807u64,
    ) {
        Some(x) => x,
        None => {
            return false;
        },
    };
    let unit = v[n - 1];
    let seconds: i128 = if unit == 's' {
        1
    } else if unit == 'm' {
        60
    } else if unit == 'h' {
        3600
    } else if unit == 'd' {
        86400
    } else {
        return false;
    };
    assert(value * seconds <= 9_223_372_036_854_775_807 * 86400) by (nonlinear_arith)
        requires
            value <= 9_223_372_036_854_775_807,
            1 <= seconds <= 86400,
    ;
    assert(value * seconds >= -9_223_372_036_854_775_808 * 86400) by (nonlinear_arith)
        requires
            -9_223_372_036_854_775_808 <= value,
            1 <= seconds <= 86400,
    ;
    let total = value * seconds;
    total < -9_223_372_036_854_775_808i128 || total > 9_223_372_036_854_775_807i128
}

/// A duration such as `2h` in seconds.
pub fn parse_ttl(text: &str) -> (r: Result<i64, String>)
    requires
        !ttl_breaks(text@),
    ensures
        r is Ok <==> ttl_spec(text@) is Some,
        r matches Ok(v) ==> ttl_spec(text@) == Some(v as int),
        r matches Err(m) ==> m@ == ttl_error(text@),
{
    let v = chars_of(text);
    let n = v.len();
    let bytes = text.as_bytes().len();
    if bytes < 2 || n < 2 {
        proof {
            if n >= 2 {
                lemma_bytes_at_least_chars(text@);
            }
            if n == 1 && bytes >= 2 {
                lemma_one_ascii_byte(text@);
            }
        }
        let mut m = String::from_str("«");
        push_str(&mut m, text);
        push_str(&mut m, "»: usá un número y s, m, h o d");
        return Err(m);
    }
    let number = crate::text::string_between(&v, 0, n - 1);
    assert(number@ == text@.drop_last());
    let unit = v[n - 1];
    let value = match crate::text::parse_int(
        number.as_str(),
        true,
        9_223_372_036_854_775_808u64,
        9_223_372_036_854_775_807u64,
    ) {
        Some(x) => x,
        None => {
            let mut m = String::from_str("«");
            push_str(&mut m, text);
            push_str(&mut m, "» no tiene un número adelante");
            return Err(m);
        },
    };
    let seconds: i128 = if unit == 's' {
        1
    } else if unit == 'm' {
        60
    } else if unit == 'h' {
        3600
    } else if unit == 'd' {
        86400
    } else {
        let mut m = String::from_str("«");
        push_str(&mut m, text);
        push_str(&mut m, "»: usá s, m, h o d");
        return Err(m);
    };
    assert(value * seconds <= 9_223_372_036_854_775_807 * 86400) by (nonlinear_arith)
        requires
            value <= 9_223_372_036_854_775_807,
            1 <= seconds <= 86400,
    ;
    assert(value * seconds >= -9_223_372_036_854_775_808 * 86400) by (nonlinear_arith)
        requires
            -9_223_372_036_854_775_808 <= value,
            1 <= seconds <= 86400,
    ;
    let total = value * seconds;
    Ok(total as i64)
}

proof fn lemma_bytes_at_least_chars(s: Seq<char>)
    ensures
        vstd::utf8::encode_utf8(s).len() >= s.len(),
    decreases s.len(),
{
    if s.len() > 0 {
        lemma_bytes_at_least_chars(s.drop_first());
        assert(vstd::utf8::encode_scalar(s[0] as u32).len() >= 1);
    }
}

// ---------------------------------------------------------------------------
// Printing answers
// ---------------------------------------------------------------------------

/// `value.as_str().unwrap_or("")`.
pub open spec fn text_or_empty(j: Option<Json>) -> Seq<char> {
    match json_text(j) {
        Some(s) => s,
        None => Seq::empty(),
    }
}

/// `list.join(sep)`.
pub open spec fn join(list: Seq<Seq<char>>, sep: Seq<char>) -> Seq<char>
    decreases list.len(),
{
    if list.len() == 0 {
        Seq::empty()
    } else if list.len() == 1 {
        list[0]
    } else {
        join(list.drop_last(), sep) + sep + list.last()
    }
}

/// The scope part of a token's description.
pub open spec fn scope_part(entry: Json) -> Seq<char> {
    if json_bool(json_get(entry, "admin"@)) == Some(true) {
        "admin"@
    } else {
        text_or_empty(json_get(entry, "project"@)) + "/"@ + text_or_empty(json_get(entry, "env"@))
    }
}

/// The keys part of a token's description.
pub open spec fn keys_part(entry: Json) -> Seq<char> {
    match json_get(entry, "keys"@) {
        Some(Json::Array(items)) => {
            let joined = join(texts(items@), ","@);
            if joined.len() > 0 {
                "claves: "@ + joined
            } else {
                "sin claves: ve todo el entorno"@
            }
        },
        _ => "ve todo el entorno"@,
    }
}

/// The expiry and last-use part of a token's description.
pub open spec fn times_part(entry: Json) -> Seq<char> {
    let expires = match json_i64(json_get(entry, "expires_at"@)) {
        Some(x) => "  vence "@ + signed_decimal(x as int),
        None => Seq::empty(),
    };
    let used = match json_i64(json_get(entry, "last_used"@)) {
        Some(x) => "  último uso "@ + signed_decimal(x as int),
        None => "  sin uso"@,
    };
    expires + used
}

/// How `token list` describes a token: name, scope, keys, expiry, last use.
pub open spec fn describe_spec(entry: Json) -> Seq<char> {
    text_or_empty(json_get(entry, "name"@)) + "  "@ + scope_part(entry) + "  "@ + keys_part(entry)
        + times_part(entry)
}

fn text_member(entry: &Json, key: &str) -> (r: String)
    ensures
        r@ == text_or_empty(json_get(*entry, key@)),
{
    match entry.text_at(key) {
        Some(s) => s,
        None => String::new(),
    }
}

/// The texts joined with `sep`.
pub fn join_texts(list: &Vec<String>, sep: &str) -> (r: String)
    ensures
        r@ == join(texts_view(list@), sep@),
{
    let mut out = String::new();
    let n = list.len();
    for i in 0..n
        invariant
            n == list@.len(),
            out@ == join(texts_view(list@.take(i as int)), sep@),
    {
        assert(texts_view(list@.take(i + 1)).drop_last() =~= texts_view(list@.take(i as int)));
        if i > 0 {
            push_str(&mut out, sep);
        }
        push_str(&mut out, list[i].as_str());
        assert(texts_view(list@.take(i + 1)).last() == list@[i as int]@);
        proof {
            if i == 0 {
                assert(out@ =~= list@[0]@);
            }
        }
    }
    assert(list@.take(n as int) == list@);
    out
}

fn scope_text(entry: &Json) -> (r: String)
    ensures
        r@ == scope_part(*entry),
{
    let admin = match entry.bool_at("admin") {
        Some(b) => b,
        None => false,
    };
    if admin {
        String::from_str("admin")
    } else {
        let mut out = text_member(entry, "project");
        push_str(&mut out, "/");
        let env = text_member(entry, "env");
        push_str(&mut out, env.as_str());
        out
    }
}

fn keys_text(entry: &Json) -> (r: String)
    ensures
        r@ == keys_part(*entry),
{
    match entry.get("keys") {
        Some(Json::Array(items)) => {
            let names = crate::json::texts_of(items);
            let joined = join_texts(&names, ",");
            if !joined.as_str().is_empty() {
                let mut out = String::from_str("claves: ");
                push_str(&mut out, joined.as_str());
                out
            } else {
                String::from_str("sin claves: ve todo el entorno")
            }
        },
        _ => String::from_str("ve todo el entorno"),
    }
}

fn times_text(entry: &Json) -> (r: String)
    ensures
        r@ == times_part(*entry),
{
    let mut out = String::new();
    match entry.i64_at("expires_at") {
        Some(x) => {
            push_str(&mut out, "  vence ");
            push_signed(&mut out, x);
        },
        None => {},
    }
    match entry.i64_at("last_used") {
        Some(x) => {
            push_str(&mut out, "  último uso ");
            push_signed(&mut out, x);
        },
        None => {
            push_str(&mut out, "  sin uso");
        },
    }
    out
}

/// The description of a token in `token list`.
pub fn describe(entry: &Json) -> (r: String)
    ensures
        r@ == describe_spec(*entry),
{
    let mut out = text_member(entry, "name");
    push_str(&mut out, "  ");
    let scope = scope_text(entry);
    push_str(&mut out, scope.as_str());
    push_str(&mut out, "  ");
    let keys = keys_text(entry);
    push_str(&mut out, keys.as_str());
    let times = times_text(entry);
    push_str(&mut out, times.as_str());
    out
}

/// A line of `token list`: the id, then the description.
pub fn token_line(entry: &Json) -> (r: String)
    ensures
        r@ == text_or_empty(json_get(*entry, "id"@)) + "  "@ + describe_spec(*entry),
{
    let mut out = text_member(entry, "id");
    push_str(&mut out, "  ");
    let d = describe(entry);
    push_str(&mut out, d.as_str());
    out
}

/// A line of `audit`: time, actor, action, environment and key.
pub open spec fn audit_line_spec(entry: Json) -> Seq<char> {
    let at = match json_u64(json_get(entry, "at"@)) {
        Some(n) => n,
        None => 0,
    };
    crate::text::decimal(at as nat) + "  "@ + text_or_empty(json_get(entry, "actor"@)) + "  "@
        + text_or_empty(json_get(entry, "action"@)) + "  "@ + text_or_empty(
        json_get(entry, "project"@),
    ) + "/"@ + text_or_empty(json_get(entry, "env"@)) + "  "@ + text_or_empty(
        json_get(entry, "key"@),
    )
}

/// A line of `audit`.
pub fn audit_line(entry: &Json) -> (r: String)
    ensures
        r@ == audit_line_spec(*entry),
{
    let at = match entry.u64_at("at") {
        Some(n) => n,
        None => 0,
    };
    let mut out = String::new();
    push_decimal(&mut out, at);
    push_str(&mut out, "  ");
    push_str(&mut out, text_member(entry, "actor").as_str());
    push_str(&mut out, "  ");
    push_str(&mut out, text_member(entry, "action").as_str());
    push_str(&mut out, "  ");
    push_str(&mut out, text_member(entry, "project").as_str());
    push_str(&mut out, "/");
    push_str(&mut out, text_member(entry, "env").as_str());
    push_str(&mut out, "  ");
    push_str(&mut out, text_member(entry, "key").as_str());
    proof {
        assert(out@ =~= audit_line_spec(*entry));
    }
    out
}

/// The texts of an array answer, one per line; anything else prints nothing.
pub fn text_lines(value: &Json) -> (r: Vec<String>)
    ensures
        texts_view(r@) == (match *value {
            Json::Array(items) => texts(items@),
            _ => Seq::empty(),
        }),
{
    match value {
        Json::Array(items) => crate::json::texts_of(items),
        _ => {
            let r: Vec<String> = Vec::new();
            assert(texts_view(r@) =~= Seq::<Seq<char>>::empty());
            r
        },
    }
}

/// The variable that carries the client's token, which a command run under
/// `heimdall run` does not get.
pub const TOKEN_VARIABLE: &'static str = "HEIMDALL_TOKEN";

/// The text members of an object's members whose names are not among
/// `taken`, by name and text, in order.
pub open spec fn text_members_outside(
    members: Seq<(String, Json)>,
    taken: Seq<Seq<char>>,
) -> Seq<(Seq<char>, Seq<char>)>
    decreases members.len(),
{
    if members.len() == 0 {
        Seq::empty()
    } else {
        let rest = text_members_outside(members.drop_last(), taken);
        match members.last().1 {
            Json::Text(t) => if taken.contains(members.last().0@) {
                rest
            } else {
                rest.push((members.last().0@, t@))
            },
            _ => rest,
        }
    }
}

/// Name and value pairs by their texts.
pub open spec fn pairs_view(pairs: Seq<(String, String)>) -> Seq<(Seq<char>, Seq<char>)> {
    pairs.map_values(|p: (String, String)| (p.0@, p.1@))
}

/// The variables a command run under `heimdall run` gets besides the ones it
/// inherits: the text members of the secrets answer, in order, but for those
/// whose names the environment it inherits (`parent`) already has.
pub fn child_env(secrets: &Json, parent: &Vec<String>) -> (r: Vec<(String, String)>)
    ensures
        pairs_view(r@) == (match *secrets {
            Json::Object(m) => text_members_outside(m@, texts_view(parent@)),
            _ => Seq::empty(),
        }),
{
    let mut out: Vec<(String, String)> = Vec::new();
    match secrets {
        Json::Object(m) => {
            let n = m.len();
            for i in 0..n
                invariant
                    n == m@.len(),
                    pairs_view(out@) == text_members_outside(m@.take(i as int), texts_view(parent@)),
            {
                assert(m@.take(i + 1).drop_last() == m@.take(i as int));
                assert(m@.take(i + 1).last() == m@[i as int]);
                match &m[i].1 {
                    Json::Text(t) => {
                        if !crate::text::contains_text(parent, m[i].0.as_str()) {
                            let ghost before = out@;
                            out.push((m[i].0.clone(), t.clone()));
                            assert(pairs_view(out@) =~= pairs_view(before).push(
                                (m@[i as int].0@, t@),
                            ));
                        }
                    },
                    _ => {},
                }
            }
            assert(m@.take(n as int) == m@);
        },
        _ => {
            assert(pairs_view(out@) =~= Seq::empty());
        },
    }
    out
}

/// The environment `pairs` leave when each is set in turn on `vars`.
pub open spec fn set_all(
    vars: Map<Seq<char>, Seq<char>>,
    pairs: Seq<(Seq<char>, Seq<char>)>,
) -> Map<Seq<char>, Seq<char>>
    decreases pairs.len(),
{
    if pairs.len() == 0 {
        vars
    } else {
        set_all(vars, pairs.drop_last()).insert(pairs.last().0, pairs.last().1)
    }
}

/// The environment a command started under `heimdall run` gets: what it
/// inherits (`parent`), without the variables `unset`, then the secrets'
/// pairs set on top.
pub open spec fn launched(
    parent: Map<Seq<char>, Seq<char>>,
    unset: Seq<Seq<char>>,
    pairs: Seq<(Seq<char>, Seq<char>)>,
) -> Map<Seq<char>, Seq<char>> {
    set_all(parent.remove_keys(unset.to_set()), pairs)
}

proof fn lemma_set_all_other(
    vars: Map<Seq<char>, Seq<char>>,
    pairs: Seq<(Seq<char>, Seq<char>)>,
    name: Seq<char>,
)
    requires
        forall|k: int| 0 <= k < pairs.len() ==> (#[trigger] pairs[k]).0 != name,
    ensures
        set_all(vars, pairs).dom().contains(name) == vars.dom().contains(name),
        vars.dom().contains(name) ==> set_all(vars, pairs)[name] == vars[name],
    decreases pairs.len(),
{
    if pairs.len() > 0 {
        let init = pairs.drop_last();
        assert forall|k: int| 0 <= k < init.len() implies (#[trigger] init[k]).0 != name by {
            assert(init[k] == pairs[k]);
        }
        lemma_set_all_other(vars, init, name);
        assert(pairs.last() == pairs[pairs.len() - 1]);
    }
}

proof fn lemma_set_all_last(
    vars: Map<Seq<char>, Seq<char>>,
    pairs: Seq<(Seq<char>, Seq<char>)>,
    i: int,
)
    requires
        0 <= i < pairs.len(),
        forall|k: int| i < k < pairs.len() ==> (#[trigger] pairs[k]).0 != pairs[i].0,
    ensures
        set_all(vars, pairs).dom().contains(pairs[i].0),
        set_all(vars, pairs)[pairs[i].0] == pairs[i].1,
    decreases pairs.len(),
{
    let init = pairs.drop_last();
    if i < pairs.len() - 1 {
        assert forall|k: int| i < k < init.len() implies (#[trigger] init[k]).0 != init[i].0 by {
            assert(init[k] == pairs[k]);
        }
        lemma_set_all_last(vars, init, i);
        assert(pairs.last() == pairs[pairs.len() - 1]);
    }
}

proof fn lemma_outside_names(members: Seq<(String, Json)>, taken: Seq<Seq<char>>)
    ensures
        forall|k: int|
            0 <= k < text_members_outside(members, taken).len() ==> !taken.contains(
                (#[trigger] text_members_outside(members, taken)[k]).0,
            ),
    decreases members.len(),
{
    if members.len() > 0 {
        let rest = text_members_outside(members.drop_last(), taken);
        let all = text_members_outside(members, taken);
        lemma_outside_names(members.drop_last(), taken);
        assert forall|k: int| 0 <= k < all.len() implies !taken.contains(
            (#[trigger] all[k]).0,
        ) by {
            if k < rest.len() {
                assert(all[k] == rest[k]);
            }
        }
    }
}

/// What a command started under `heimdall run` gets: every variable it
/// inherits keeps its value, but `HEIMDALL_TOKEN`, which it does not get from
/// its parent; each secret whose name the parent does not have is added,
/// with the value of its last text member.
pub proof fn lemma_run_environment(
    parent: Map<Seq<char>, Seq<char>>,
    names: Seq<Seq<char>>,
    members: Seq<(String, Json)>,
)
    requires
        forall|n: Seq<char>| #[trigger] names.contains(n) <==> parent.dom().contains(n),
    ensures
        ({
            let pairs = text_members_outside(members, names);
            let child = launched(parent, seq![TOKEN_VARIABLE@], pairs);
            &&& forall|n: Seq<char>|
                #[trigger] parent.dom().contains(n) && n != TOKEN_VARIABLE@ ==> child.dom().contains(
                    n,
                ) && child[n] == parent[n]
            &&& !(parent.dom().contains(TOKEN_VARIABLE@) && child.dom().contains(TOKEN_VARIABLE@))
            &&& forall|i: int|
                0 <= i < pairs.len() && (forall|k: int|
                    i < k < pairs.len() ==> (#[trigger] pairs[k]).0 != pairs[i].0) ==> child.dom().contains(
                    (#[trigger] pairs[i]).0,
                ) && child[pairs[i].0] == pairs[i].1
        }),
{
    let pairs = text_members_outside(members, names);
    let unset = seq![TOKEN_VARIABLE@];
    let base = parent.remove_keys(unset.to_set());
    lemma_outside_names(members, names);
    assert forall|n: Seq<char>| #[trigger]
        parent.dom().contains(n) && n != TOKEN_VARIABLE@ implies launched(parent, unset, pairs).dom().contains(n)
        && launched(parent, unset, pairs)[n] == parent[n] by {
        assert(!unset.contains(n));
        assert(!unset.to_set().contains(n));
        assert(base.dom().contains(n) && base[n] == parent[n]);
        assert forall|k: int| 0 <= k < pairs.len() implies (#[trigger] pairs[k]).0 != n by {
            assert(!names.contains(pairs[k].0));
        }
        lemma_set_all_other(base, pairs, n);
    }
    if parent.dom().contains(TOKEN_VARIABLE@) {
        assert(unset[0] == TOKEN_VARIABLE@);
        assert(unset.contains(TOKEN_VARIABLE@));
        assert(unset.to_set().contains(TOKEN_VARIABLE@));
        assert(!base.dom().contains(TOKEN_VARIABLE@));
        assert forall|k: int| 0 <= k < pairs.len() implies (#[trigger] pairs[k]).0
            != TOKEN_VARIABLE@ by {
            assert(!names.contains(pairs[k].0));
        }
        lemma_set_all_other(base, pairs, TOKEN_VARIABLE@);
    }
    assert forall|i: int|
        0 <= i < pairs.len() && (forall|k: int|
            i < k < pairs.len() ==> (#[trigger] pairs[k]).0 != pairs[i].0) implies launched(
        parent,
        unset,
        pairs,
    ).dom().contains((#[trigger] pairs[i]).0) && launched(parent, unset, pairs)[pairs[i].0]
        == pairs[i].1 by {
        lemma_set_all_last(base, pairs, i);
    }
}

// ---------------------------------------------------------------------------
// Commands
// ---------------------------------------------------------------------------

/// What to print once the API has answered.
#[derive(Debug, PartialEq)]
pub enum Then {
    /// `{name} guardada en {project}/{env}`.
    Saved { name: String, project: String, env: String },
    /// `{name} ya no está en {project}/{env}`.
    Removed { name: String, project: String, env: String },
    /// The texts of the answer, one per line.
    Lines,
    /// The new token's secret, and a reminder with its id.
    Created,
    /// `revocado {name}`, or the id when the answer has no name.
    Revoked { id: String },
    /// One line per token.
    TokenList,
    /// One line per audit row.
    AuditLog,
}

/// What the arguments ask for.
#[derive(Debug)]
pub enum Command {
    /// Run `program` with `args` and the environment's secrets, which `path`
    /// reads; the variables `unset` are taken out of its environment.
    Run { path: String, program: String, args: Vec<String>, unset: Vec<String> },
    /// Write `text` to `heimdall.yaml` in `dir` (the current directory when
    /// `None`); print `project/env`.
    Setup { dir: Option<String>, text: String, project: String, env: String },
    /// Keep a token for later; read it from the input when `None`.
    Login { token: Option<String> },
    /// Forget the kept token.
    Logout,
    /// Ask the API, then print.
    Call { method: String, path: String, body: Option<Json>, then: Then },
    /// Print the usage.
    Help,
}

/// The usage text.
pub fn usage() -> (r: &'static str)
    ensures
        r@ == usage_text(),
{
    "heimdall — secretos por proyecto y entorno

  heimdall setup --project X --config Y [--dir D]
  heimdall run [--project X] [--config Y] -- comando
  heimdall login --token T
  heimdall logout
  heimdall set CLAVE=valor [--project X] [--env Y]
  heimdall unset CLAVE [--project X] [--env Y]
  heimdall ls [--project X] [--env Y]
  heimdall environments
  heimdall token create --name N [--project X] [--env Y] [--keys A,B] [--ttl 2h]
                        (el proyecto y el entorno aceptan «*»)
  heimdall token create --name N --admin [--ttl 24h]
  heimdall token list
  heimdall token revoke --id ID
  heimdall audit
  heimdall help

El proyecto y el entorno salen de los flags o, si no los pasás, de un
heimdall.yaml que se busca en el directorio actual y hacia arriba. Lo escribe
«heimdall setup». Los flags son los de doppler: -p/--project, -c/--config.

El cliente lee HEIMDALL_URL (por defecto http://127.0.0.1:8080) y HEIMDALL_TOKEN.
El token también puede estar guardado con «heimdall login»."
}

/// The usage text, as `usage` returns it.
pub open spec fn usage_text() -> Seq<char> {
    "heimdall — secretos por proyecto y entorno

  heimdall setup --project X --config Y [--dir D]
  heimdall run [--project X] [--config Y] -- comando
  heimdall login --token T
  heimdall logout
  heimdall set CLAVE=valor [--project X] [--env Y]
  heimdall unset CLAVE [--project X] [--env Y]
  heimdall ls [--project X] [--env Y]
  heimdall environments
  heimdall token create --name N [--project X] [--env Y] [--keys A,B] [--ttl 2h]
                        (el proyecto y el entorno aceptan «*»)
  heimdall token create --name N --admin [--ttl 24h]
  heimdall token list
  heimdall token revoke --id ID
  heimdall audit
  heimdall help

El proyecto y el entorno salen de los flags o, si no los pasás, de un
heimdall.yaml que se busca en el directorio actual y hacia arriba. Lo escribe
«heimdall setup». Los flags son los de doppler: -p/--project, -c/--config.

El cliente lee HEIMDALL_URL (por defecto http://127.0.0.1:8080) y HEIMDALL_TOKEN.
El token también puede estar guardado con «heimdall login»."@
}

/// The path that reads an environment's secrets (or, with `keys`, names).
pub open spec fn env_path(what: Seq<char>, project: Seq<char>, env: Seq<char>) -> Seq<char> {
    "/v1/"@ + what + "?project="@ + project + "&env="@ + env
}

fn env_path_text(what: &str, project: &str, env: &str) -> (r: String)
    ensures
        r@ == env_path(what@, project@, env@),
{
    let mut r = String::from_str("/v1/");
    push_str(&mut r, what);
    push_str(&mut r, "?project=");
    push_str(&mut r, project);
    push_str(&mut r, "&env=");
    push_str(&mut r, env);
    r
}

/// The index of the first `--`.
pub open spec fn separator(args: Seq<Seq<char>>) -> Option<int>
    decreases args.len(),
{
    if args.len() == 0 {
        None
    } else {
        match separator(args.drop_last()) {
            Some(i) => Some(i),
            None => if args.last() == "--"@ {
                Some(args.len() - 1)
            } else {
                None
            },
        }
    }
}

proof fn lemma_separator_extend(args: Seq<Seq<char>>, k: int)
    requires
        0 <= k <= args.len(),
        separator(args.take(k)) is Some,
    ensures
        separator(args) == separator(args.take(k)),
    decreases args.len() - k,
{
    if k < args.len() {
        assert(args.take(k + 1).drop_last() == args.take(k));
        lemma_separator_extend(args, k + 1);
    } else {
        assert(args.take(k) == args);
    }
}

/// The index of the first `--` in `args`.
pub fn find_separator(args: &[String]) -> (r: Option<usize>)
    ensures
        r matches Some(i) ==> separator(texts_view(args@)) == Some(i as int) && i < args@.len(),
        r is None ==> separator(texts_view(args@)) is None,
{
    let ghost a = texts_view(args@);
    let n = args.len();
    let mut i: usize = 0;
    while i < n
        invariant
            i <= n == args@.len() == a.len(),
            a == texts_view(args@),
            separator(a.take(i as int)) is None,
        decreases n - i,
    {
        assert(a.take(i + 1).drop_last() == a.take(i as int));
        assert(a.take(i + 1).last() == args@[i as int]@);
        if crate::text::same(args[i].as_str(), "--") {
            proof {
                lemma_separator_extend(a, i + 1);
            }
            return Some(i);
        }
        i = i + 1;
    }
    assert(a.take(n as int) == a);
    None
}

fn slice_to_vec(args: &[String], from: usize, to: usize) -> (r: Vec<String>)
    requires
        from <= to <= args@.len(),
    ensures
        r@ == args@.subrange(from as int, to as int),
{
    let mut out: Vec<String> = Vec::new();
    let mut i = from;
    while i < to
        invariant
            from <= i <= to <= args@.len(),
            out@ == args@.subrange(from as int, i as int),
        decreases to - i,
    {
        out.push(args[i].clone());
        assert(out@ =~= args@.subrange(from as int, i + 1));
        i = i + 1;
    }
    out
}

/// The project and environment of a command, when flags or file give both.
pub open spec fn scope_spec(args: Seq<Seq<char>>, file: Option<Setup>) -> Option<
    (Seq<char>, Seq<char>),
> {
    let p = pick_spec(args, seq!["--project"@, "-p"@], setup_project(file));
    let e = pick_spec(args, seq!["--config"@, "-c"@, "--env"@], setup_env(file));
    if p is Some && e is Some {
        Some((p->Some_0, e->Some_0))
    } else {
        None
    }
}

/// Why a command has no environment.
pub open spec fn scope_error(args: Seq<Seq<char>>, file: Option<Setup>) -> Seq<char> {
    if pick_spec(args, seq!["--project"@, "-p"@], setup_project(file)) is None {
        "falta el proyecto: pasá --project, o corré «heimdall setup»"@
    } else {
        "falta el entorno: pasá --config, o corré «heimdall setup»"@
    }
}

/// Whether `j` is an object of text members named `names` with `values`.
pub open spec fn text_object(j: Json, names: Seq<Seq<char>>, values: Seq<Seq<char>>) -> bool {
    j matches Json::Object(m) && m@.len() == names.len() == values.len() && forall|i: int|
        0 <= i < names.len() ==> (#[trigger] m@[i]).0@ == names[i] && is_text(m@[i].1, values[i])
}

/// Whether `r` is a call of the API with `method`, `path` and no body.
pub open spec fn bodiless_call(r: Result<Command, String>, method: Seq<char>, path: Seq<char>) -> bool {
    r matches Ok(Command::Call { method: m, path: p, body: None, .. }) && m@ == method && p@ == path
}

/// What `run` gives for arguments with a `--`.
pub open spec fn forward_result(a: Seq<Seq<char>>, file: Option<Setup>, r: Result<Command, String>) -> bool {
    match separator(a) {
        None => r matches Err(m) && m@ == "falta el -- antes del comando"@,
        Some(s) => match scope_spec(a.take(s), file) {
            None => r matches Err(m) && m@ == scope_error(a.take(s), file),
            Some(pe) => if s + 1 >= a.len() {
                r matches Err(m) && m@ == "falta el comando después del --"@
            } else {
                r matches Ok(Command::Run { path, program, args, unset }) && path@ == env_path(
                    "secrets"@,
                    pe.0,
                    pe.1,
                ) && program@ == a[s + 1] && texts_view(args@) == a.subrange(s + 2, a.len() as int)
                    && texts_view(unset@) == seq![TOKEN_VARIABLE@]
            },
        },
    }
}

/// What `setup` gives.
pub open spec fn setup_result(a: Seq<Seq<char>>, r: Result<Command, String>) -> bool {
    let p = pick_spec(a, seq!["--project"@, "-p"@], None);
    let e = pick_spec(a, seq!["--config"@, "-c"@, "--env"@], None);
    if p is None {
        r matches Err(m) && m@ == "falta --project"@
    } else if e is None {
        r matches Err(m) && m@ == "falta --config"@
    } else {
        r matches Ok(Command::Setup { dir, text, project, env }) && opt_text(dir)
            == flag_spec(a, "--dir"@) && project@ == p->Some_0 && env@ == e->Some_0 && text@
            == setup_body_spec(p->Some_0, e->Some_0)
    }
}

/// What `set NAME=value` gives.
pub open spec fn set_result(a: Seq<Seq<char>>, file: Option<Setup>, r: Result<Command, String>) -> bool {
    match scope_spec(a, file) {
        None => r matches Err(m) && m@ == scope_error(a, file),
        Some(pe) => if a.len() < 2 || find(a[1], '=') is None {
            r matches Err(m) && m@ == "esperaba CLAVE=valor"@
        } else {
            let kv = split_once(a[1], '=')->Some_0;
            r matches Ok(Command::Call { method, path, body: Some(j), then: Then::Saved { name, project, env } })
                && method@ == "PUT"@ && path@ == "/v1/secrets"@ && text_object(
                j,
                seq!["project"@, "env"@, "key"@, "value"@],
                seq![pe.0, pe.1, kv.0, kv.1],
            ) && name@ == kv.0 && project@ == pe.0 && env@ == pe.1
        },
    }
}

/// What `unset NAME` gives.
pub open spec fn unset_result(a: Seq<Seq<char>>, file: Option<Setup>, r: Result<Command, String>) -> bool {
    match scope_spec(a, file) {
        None => r matches Err(m) && m@ == scope_error(a, file),
        Some(pe) => if a.len() < 2 {
            r matches Err(m) && m@ == "esperaba la clave a sacar"@
        } else {
            r matches Ok(Command::Call { method, path, body: Some(j), then: Then::Removed { name, project, env } })
                && method@ == "DELETE"@ && path@ == "/v1/secrets"@ && text_object(
                j,
                seq!["project"@, "env"@, "key"@],
                seq![pe.0, pe.1, a[1]],
            ) && name@ == a[1] && project@ == pe.0 && env@ == pe.1
        },
    }
}

/// Whether the member `i` of `m` is `key` with the texts `values`.
pub open spec fn list_member_at(m: Seq<(String, Json)>, i: int, key: Seq<char>, values: Seq<Seq<char>>) -> bool {
    0 <= i < m.len() && m[i].0@ == key && (m[i].1 matches Json::Array(items) && texts(items@)
        == values && items@.len() == values.len())
}

/// Whether `m` is the body `token create` sends: the name and the admin
/// mark; for other tokens the environment and, when given, the keys; and,
/// when given, the lifetime in seconds.
pub open spec fn create_body(m: Seq<(String, Json)>, a: Seq<Seq<char>>, file: Option<Setup>) -> bool {
    let admin = a.contains("--admin"@);
    let pe = scope_spec(a, file)->Some_0;
    let keys = flag_spec(a, "--keys"@);
    let ttl = flag_spec(a, "--ttl"@);
    let tail: int = if admin {
        2
    } else if keys is Some {
        5
    } else {
        4
    };
    &&& m.len() == tail + (if ttl is Some {
        1int
    } else {
        0
    })
    &&& m[0].0@ == "name"@ && is_text(m[0].1, flag_spec(a, "--name"@)->Some_0)
    &&& m[1].0@ == "admin"@ && m[1].1 == Json::Bool(admin)
    &&& !admin ==> m[2].0@ == "project"@ && is_text(m[2].1, pe.0) && m[3].0@ == "env"@ && is_text(
        m[3].1,
        pe.1,
    )
    &&& (!admin && keys is Some) ==> list_member_at(m, 4, "keys"@, key_list(keys->Some_0))
    &&& ttl is Some ==> m[tail].0@ == "ttl"@ && crate::json::json_i64(Some(m[tail].1)) == Some(
        ttl_spec(ttl->Some_0)->Some_0 as i64,
    )
}

/// A token is created for the environment the arguments name: for a
/// `token create` without `--admin`, the request's body names as `project`
/// and `env` the project and the environment that the flags, or the setup
/// file, give, each as given.
pub proof fn lemma_token_create_scope(
    a: Seq<Seq<char>>,
    file: Option<Setup>,
    r: Result<Command, String>,
    project: Seq<char>,
    env: Seq<char>,
)
    requires
        create_result(a, file, r),
        flag_spec(a, "--name"@) is Some,
        !a.contains("--admin"@),
        scope_spec(a, file) == Some((project, env)),
        flag_spec(a, "--ttl"@) matches Some(t) ==> ttl_spec(t) is Some,
    ensures
        r matches Ok(Command::Call { body: Some(b), .. }) && json_text(json_get(b, "project"@))
            == Some(project) && json_text(json_get(b, "env"@)) == Some(env),
{
    reveal_strlit("name");
    reveal_strlit("admin");
    reveal_strlit("project");
    reveal_strlit("env");
    if let Ok(Command::Call { body: Some(Json::Object(m)), .. }) = r {
        let s = m@;
        assert(s[0].0@ == "name"@);
        assert(s[1].0@ == "admin"@);
        assert(s[2].0@ == "project"@);
        assert(s[3].0@ == "env"@);
        assert("name"@.len() == 4 && "admin"@.len() == 5 && "project"@.len() == 7
            && "env"@.len() == 3);
        assert forall|j: int| 0 <= j < 2 implies (#[trigger] s[j]).0@ != "project"@ by {
            assert(s[j].0@.len() != 7);
        }
        assert forall|j: int| 0 <= j < 3 implies (#[trigger] s[j]).0@ != "env"@ by {
            assert(s[j].0@.len() != 3);
        }
        crate::json::lemma_member_at(s, "project"@, 2);
        crate::json::lemma_member_at(s, "env"@, 3);
    }
}

/// Whether `token create` with these arguments reaches a duration that
/// cannot be read at all.
pub open spec fn create_breaks(a: Seq<Seq<char>>, file: Option<Setup>) -> bool {
    &&& flag_spec(a, "--name"@) is Some
    &&& (a.contains("--admin"@) || scope_spec(a, file) is Some)
    &&& flag_spec(a, "--ttl"@) matches Some(t) && ttl_breaks(t)
}

/// Whether the arguments are a `token create` that reaches a duration that
/// cannot be read at all.
pub open spec fn command_breaks(a: Seq<Seq<char>>, file: Option<Setup>) -> bool {
    a.len() > 1 && a[0] == "token"@ && a[1] == "create"@ && create_breaks(a, file)
}

/// What `token create` gives.
pub open spec fn create_result(a: Seq<Seq<char>>, file: Option<Setup>, r: Result<Command, String>) -> bool {
    let admin = a.contains("--admin"@);
    let ttl = flag_spec(a, "--ttl"@);
    if flag_spec(a, "--name"@) is None {
        r matches Err(m) && m@ == "falta "@ + "--name"@
    } else if !admin && scope_spec(a, file) is None {
        r matches Err(m) && m@ == scope_error(a, file)
    } else if ttl is Some && ttl_spec(ttl->Some_0) is None {
        r matches Err(m) && m@ == ttl_error(ttl->Some_0)
    } else {
        r matches Ok(Command::Call { method, path, body: Some(Json::Object(m)), then: Then::Created })
            && method@ == "POST"@ && path@ == "/v1/tokens"@ && create_body(m@, a, file)
    }
}

/// What `token ...` gives.
pub open spec fn token_result(a: Seq<Seq<char>>, file: Option<Setup>, r: Result<Command, String>) -> bool {
    if a.len() < 2 || a[1] == "list"@ {
        bodiless_call(r, "GET"@, "/v1/tokens"@) && r matches Ok(Command::Call { then: Then::TokenList, .. })
    } else if a[1] == "create"@ {
        create_result(a, file, r)
    } else if a[1] == "revoke"@ {
        match flag_spec(a, "--id"@) {
            None => r matches Err(m) && m@ == "falta "@ + "--id"@,
            Some(id) => bodiless_call(r, "DELETE"@, "/v1/tokens?id="@ + id) && (r matches Ok(
                Command::Call { then: Then::Revoked { id: i }, .. },
            ) && i@ == id),
        }
    } else {
        r matches Err(m) && m@ == "no conozco `token "@ + a[1] + "`"@
    }
}

/// What the arguments ask for, command by command.
pub open spec fn run_result(a: Seq<Seq<char>>, file: Option<Setup>, r: Result<Command, String>) -> bool {
    if a.len() == 0 {
        r matches Err(m) && m@ == "no conozco «"@ + "», mirá `heimdall help`"@
    } else {
        let c = a[0];
        if c == "run"@ {
            forward_result(a, file, r)
        } else if c == "setup"@ {
            setup_result(a, r)
        } else if c == "login"@ {
            r matches Ok(Command::Login { token }) && opt_text(token) == flag_spec(
                a,
                "--token"@,
            )
        } else if c == "logout"@ {
            r matches Ok(Command::Logout)
        } else if c == "set"@ {
            set_result(a, file, r)
        } else if c == "unset"@ {
            unset_result(a, file, r)
        } else if c == "ls"@ || c == "keys"@ {
            match scope_spec(a, file) {
                None => r matches Err(m) && m@ == scope_error(a, file),
                Some(pe) => bodiless_call(r, "GET"@, env_path("keys"@, pe.0, pe.1)) && r matches Ok(
                    Command::Call { then: Then::Lines, .. },
                ),
            }
        } else if c == "environments"@ || c == "envs"@ {
            bodiless_call(r, "GET"@, "/v1/environments"@) && r matches Ok(
                Command::Call { then: Then::Lines, .. },
            )
        } else if c == "token"@ {
            token_result(a, file, r)
        } else if c == "audit"@ {
            bodiless_call(r, "GET"@, "/v1/audit"@) && r matches Ok(
                Command::Call { then: Then::AuditLog, .. },
            )
        } else if c == "help"@ {
            r matches Ok(Command::Help)
        } else {
            r matches Err(m) && m@ == "no conozco «"@ + c + "», mirá `heimdall help`"@
        }
    }
}

fn call(method: &str, path: String, then: Then) -> (r: Result<Command, String>)
    ensures
        r matches Ok(Command::Call { method: m, path: p, body: None, then: t }) && m@ == method@
            && p == path && t == then,
{
    Ok(Command::Call { method: String::from_str(method), path, body: None, then })
}

/// Whether the arguments are a `token create` whose duration cannot be read
/// at all, which `run` does not take.
pub fn breaks(args: &[String], file: &Option<Setup>) -> (r: bool)
    ensures
        r == command_breaks(texts_view(args@), *file),
{
    let ghost a = texts_view(args@);
    if args.len() < 2 || !crate::text::same(args[0].as_str(), "token") || !crate::text::same(
        args[1].as_str(),
        "create",
    ) {
        proof {
            if args@.len() >= 2 {
                assert(a[0] == args@[0]@);
                assert(a[1] == args@[1]@);
            }
        }
        return false;
    }
    assert(a[0] == args@[0]@ && a[1] == args@[1]@);
    if flag(args, "--name").is_none() {
        return false;
    }
    if !has_admin(args) && scope(args, file).is_err() {
        return false;
    }
    match flag(args, "--ttl") {
        Some(t) => ttl_breaks_on(t.as_str()),
        None => false,
    }
}

/// The command `args` ask for, with `file` the setup file found, if any.
/// The first argument names the command.
pub fn run(args: &[String], file: &Option<Setup>) -> (r: Result<Command, String>)
    requires
        !command_breaks(texts_view(args@), *file),
    ensures
        run_result(texts_view(args@), *file, r),
{
    let ghost a = texts_view(args@);
    if args.len() == 0 {
        let mut m = String::from_str("no conozco «");
        push_str(&mut m, "», mirá `heimdall help`");
        return Err(m);
    }
    let command = args[0].as_str();
    assert(a[0] == command@);
    if crate::text::same(command, "run") {
        forward(args, file)
    } else if crate::text::same(command, "setup") {
        setup(args)
    } else if crate::text::same(command, "login") {
        let token = flag(args, "--token");
        Ok(Command::Login { token })
    } else if crate::text::same(command, "logout") {
        Ok(Command::Logout)
    } else if crate::text::same(command, "set") {
        set(args, file)
    } else if crate::text::same(command, "unset") {
        unset(args, file)
    } else if crate::text::same(command, "ls") || crate::text::same(command, "keys") {
        let (project, env) = scope(args, file)?;
        call("GET", env_path_text("keys", project.as_str(), env.as_str()), Then::Lines)
    } else if crate::text::same(command, "environments") || crate::text::same(command, "envs") {
        call("GET", String::from_str("/v1/environments"), Then::Lines)
    } else if crate::text::same(command, "token") {
        token(args, file)
    } else if crate::text::same(command, "audit") {
        call("GET", String::from_str("/v1/audit"), Then::AuditLog)
    } else if crate::text::same(command, "help") {
        Ok(Command::Help)
    } else {
        let mut m = String::from_str("no conozco «");
        push_str(&mut m, command);
        push_str(&mut m, "», mirá `heimdall help`");
        Err(m)
    }
}

/// `run`: the environment, and the command after `--`.
pub fn forward(args: &[String], file: &Option<Setup>) -> (r: Result<Command, String>)
    ensures
        forward_result(texts_view(args@), *file, r),
{
    let ghost a = texts_view(args@);
    let separator = match find_separator(args) {
        Some(s) => s,
        None => {
            return Err(String::from_str("falta el -- antes del comando"));
        },
    };
    let before = slice_to_vec(args, 0, separator);
    assert(texts_view(before@) =~= a.take(separator as int));
    let (project, env) = scope(before.as_slice(), file)?;
    if separator >= args.len() - 1 {
        return Err(String::from_str("falta el comando después del --"));
    }
    let program = args[separator + 1].clone();
    let rest = slice_to_vec(args, separator + 2, args.len());
    assert(texts_view(rest@) =~= a.subrange(separator + 2, a.len() as int));
    let mut unset: Vec<String> = Vec::new();
    unset.push(String::from_str(TOKEN_VARIABLE));
    proof {
        assert(texts_view(unset@) =~= seq![TOKEN_VARIABLE@]);
    }
    Ok(
        Command::Run {
            path: env_path_text("secrets", project.as_str(), env.as_str()),
            program,
            args: rest,
            unset,
        },
    )
}

/// `setup`: the file's text for the project and environment of the flags.
pub fn setup(args: &[String]) -> (r: Result<Command, String>)
    ensures
        setup_result(texts_view(args@), r),
{
    let dir = flag(args, "--dir");
    let project_names: [&str; 2] = ["--project", "-p"];
    let env_names: [&str; 3] = ["--config", "-c", "--env"];
    assert(strs_view(project_names@) =~= seq!["--project"@, "-p"@]);
    assert(strs_view(env_names@) =~= seq!["--config"@, "-c"@, "--env"@]);
    let project = match pick(args, project_names.as_slice(), None) {
        Some(p) => p,
        None => {
            return Err(String::from_str("falta --project"));
        },
    };
    let env = match pick(args, env_names.as_slice(), None) {
        Some(e) => e,
        None => {
            return Err(String::from_str("falta --config"));
        },
    };
    let text = setup_body(project.as_str(), env.as_str());
    Ok(Command::Setup { dir, text, project, env })
}

/// The token to keep: the given one, unless it is empty.
pub fn login_token(token: String) -> (r: Result<String, String>)
    ensures
        r matches Ok(t) ==> t == token,
        r is Err <==> token@.len() == 0,
        r matches Err(m) ==> m@
            == "esperaba el token: `heimdall login --token T`, o pegámelo por stdin"@,
{
    if token.as_str().is_empty() {
        Err(
            String::from_str(
                "esperaba el token: `heimdall login --token T`, o pegámelo por stdin",
            ),
        )
    } else {
        Ok(token)
    }
}

/// `set NAME=value`.
pub fn set(args: &[String], file: &Option<Setup>) -> (r: Result<Command, String>)
    ensures
        set_result(texts_view(args@), *file, r),
{
    let ghost a = texts_view(args@);
    let (project, env) = scope(args, file)?;
    if args.len() < 2 {
        return Err(String::from_str("esperaba CLAVE=valor"));
    }
    assert(a[1] == args@[1]@);
    let pair = chars_of(args[1].as_str());
    if crate::text::find_char(&pair, '=').is_none() {
        return Err(String::from_str("esperaba CLAVE=valor"));
    }
    let (name, value) = match split_once_str(args[1].as_str(), '=') {
        Some(p) => p,
        None => (args[1].clone(), String::new()),
    };
    let mut m: Vec<(String, Json)> = Vec::new();
    m.push((String::from_str("project"), Json::Text(project.clone())));
    m.push((String::from_str("env"), Json::Text(env.clone())));
    m.push((String::from_str("key"), Json::Text(name.clone())));
    m.push((String::from_str("value"), Json::Text(value)));
    Ok(
        Command::Call {
            method: String::from_str("PUT"),
            path: String::from_str("/v1/secrets"),
            body: Some(Json::Object(m)),
            then: Then::Saved { name, project, env },
        },
    )
}

/// `unset NAME`.
pub fn unset(args: &[String], file: &Option<Setup>) -> (r: Result<Command, String>)
    ensures
        unset_result(texts_view(args@), *file, r),
{
    let ghost a = texts_view(args@);
    let (project, env) = scope(args, file)?;
    if args.len() < 2 {
        return Err(String::from_str("esperaba la clave a sacar"));
    }
    assert(a[1] == args@[1]@);
    let name = args[1].clone();
    let mut m: Vec<(String, Json)> = Vec::new();
    m.push((String::from_str("project"), Json::Text(project.clone())));
    m.push((String::from_str("env"), Json::Text(env.clone())));
    m.push((String::from_str("key"), Json::Text(name.clone())));
    Ok(
        Command::Call {
            method: String::from_str("DELETE"),
            path: String::from_str("/v1/secrets"),
            body: Some(Json::Object(m)),
            then: Then::Removed { name, project, env },
        },
    )
}

/// `token create|revoke|list`; `list` when nothing follows.
pub fn token(args: &[String], file: &Option<Setup>) -> (r: Result<Command, String>)
    requires
        !(args@.len() > 1 && args@[1]@ == "create"@ && create_breaks(texts_view(args@), *file)),
    ensures
        token_result(texts_view(args@), *file, r),
{
    let ghost a = texts_view(args@);
    if args.len() < 2 || crate::text::same(args[1].as_str(), "list") {
        return call("GET", String::from_str("/v1/tokens"), Then::TokenList);
    }
    assert(a[1] == args@[1]@);
    let sub = args[1].as_str();
    if crate::text::same(sub, "create") {
        token_create(args, file)
    } else if crate::text::same(sub, "revoke") {
        let id = required(args, "--id")?;
        let path = concat("/v1/tokens?id=", id.as_str());
        let then = Then::Revoked { id };
        call("DELETE", path, then)
    } else {
        let mut m = String::from_str("no conozco `token ");
        push_str(&mut m, sub);
        push_str(&mut m, "`");
        Err(m)
    }
}

/// What an answer that is not a success is reported with: its `error` text,
/// or a generic message when it has none.
pub open spec fn api_error_spec(answer: Option<Json>) -> Seq<char> {
    match answer {
        Some(v) => match json_text(json_get(v, "error"@)) {
            Some(t) => t,
            None => "la API contestó mal"@,
        },
        None => "la API contestó mal"@,
    }
}

/// What an answer that is not a success is reported with.
pub fn api_error(answer: &Option<Json>) -> (r: String)
    ensures
        r@ == api_error_spec(*answer),
{
    match answer {
        Some(v) => match v.text_at("error") {
            Some(t) => t,
            None => String::from_str("la API contestó mal"),
        },
        None => String::from_str("la API contestó mal"),
    }
}

/// The key names of `--keys A,B`: split at commas, trimmed, empty ones
/// dropped.
pub open spec fn key_list(text: Seq<char>) -> Seq<Seq<char>> {
    split(text, ',').map_values(|p: Seq<char>| trim(p)).filter(|p: Seq<char>| p.len() > 0)
}

/// The key names of a `--keys` value.
pub fn keys_of(text: &str) -> (r: Vec<String>)
    ensures
        texts_view(r@) == key_list(text@),
{
    let pieces = split_str(text, ',');
    let ghost ps = split(text@, ',').map_values(|p: Seq<char>| trim(p));
    let mut out: Vec<String> = Vec::new();
    let n = pieces.len();
    for i in 0..n
        invariant
            n == pieces@.len() == ps.len(),
            ps == split(text@, ',').map_values(|p: Seq<char>| trim(p)),
            forall|k: int| 0 <= k < n ==> trim(#[trigger] pieces@[k]@) == ps[k],
            texts_view(out@) == ps.take(i as int).filter(|p: Seq<char>| p.len() > 0),
    {
        let piece = trimmed(pieces[i].as_str());
        assert(ps.take(i + 1).drop_last() == ps.take(i as int));
        assert(ps.take(i + 1).last() == ps[i as int]);
        proof {
            reveal_with_fuel(Seq::filter, 1);
        }
        if !piece.as_str().is_empty() {
            let ghost before = out@;
            out.push(piece);
            assert(texts_view(out@) =~= texts_view(before).push(ps[i as int]));
        }
    }
    assert(ps.take(n as int) == ps);
    out
}

/// Whether `--admin` is among the arguments.
fn has_admin(args: &[String]) -> (r: bool)
    ensures
        r == texts_view(args@).contains("--admin"@),
{
    let n = args.len();
    for i in 0..n
        invariant
            n == args@.len(),
            forall|j: int| 0 <= j < i ==> args@[j]@ != "--admin"@,
    {
        if crate::text::same(args[i].as_str(), "--admin") {
            assert(texts_view(args@)[i as int] == "--admin"@);
            return true;
        }
    }
    proof {
        if texts_view(args@).contains("--admin"@) {
            let j = choose|j: int|
                0 <= j < texts_view(args@).len() && texts_view(args@)[j] == "--admin"@;
            assert(args@[j]@ == "--admin"@);
        }
    }
    false
}

/// `token create`: the request body for a new token.
pub fn token_create(args: &[String], file: &Option<Setup>) -> (r: Result<Command, String>)
    requires
        !create_breaks(texts_view(args@), *file),
    ensures
        create_result(texts_view(args@), *file, r),
{
    let ghost a = texts_view(args@);
    let name = required(args, "--name")?;
    let admin = has_admin(args);
    let mut m: Vec<(String, Json)> = Vec::new();
    m.push((String::from_str("name"), Json::Text(name)));
    m.push((String::from_str("admin"), Json::Bool(admin)));
    if !admin {
        let (project, env) = scope(args, file)?;
        m.push((String::from_str("project"), Json::Text(project)));
        m.push((String::from_str("env"), Json::Text(env)));
        match flag(args, "--keys") {
            Some(keys) => {
                let list = keys_of(keys.as_str());
                m.push((String::from_str("keys"), crate::json::text_array(&list)));
            },
            None => {},
        }
    }
    match flag(args, "--ttl") {
        Some(ttl) => {
            let seconds = parse_ttl(ttl.as_str())?;
            m.push((String::from_str("ttl"), Json::integer(seconds)));
        },
        None => {},
    }
    Ok(
        Command::Call {
            method: String::from_str("POST"),
            path: String::from_str("/v1/tokens"),
            body: Some(Json::Object(m)),
            then: Then::Created,
        },
    )
}

/// The lines printed for an answer: to the output, and to the error stream.
pub open spec fn printed_spec(then: Then, value: Json) -> (Seq<Seq<char>>, Seq<Seq<char>>) {
    match then {
        Then::Saved { name, project, env } => (
            seq![name@ + " guardada en "@ + project@ + "/"@ + env@],
            Seq::empty(),
        ),
        Then::Removed { name, project, env } => (
            seq![name@ + " ya no está en "@ + project@ + "/"@ + env@],
            Seq::empty(),
        ),
        Then::Lines => (
            match value {
                Json::Array(items) => texts(items@),
                _ => Seq::empty(),
            },
            Seq::empty(),
        ),
        Then::Created => (
            seq![text_or_empty(json_get(value, "token"@))],
            seq![
                "guardalo: no se vuelve a mostrar. id "@ + text_or_empty(json_get(value, "id"@))
                    + "."@,
            ],
        ),
        Then::Revoked { id } => (
            seq![
                "revocado "@ + match json_text(json_get(value, "name"@)) {
                    Some(n) => n,
                    None => id@,
                },
            ],
            Seq::empty(),
        ),
        Then::TokenList => (
            match value {
                Json::Array(items) => items@.map_values(
                    |e: Json| text_or_empty(json_get(e, "id"@)) + "  "@ + describe_spec(e),
                ),
                _ => Seq::empty(),
            },
            Seq::empty(),
        ),
        Then::AuditLog => (
            match value {
                Json::Array(items) => items@.map_values(|e: Json| audit_line_spec(e)),
                _ => Seq::empty(),
            },
            Seq::empty(),
        ),
    }
}

/// What to print once the API answered `value`.
pub fn printed(then: &Then, value: &Json) -> (r: (Vec<String>, Vec<String>))
    ensures
        (texts_view(r.0@), texts_view(r.1@)) == printed_spec(*then, *value),
{
    let mut out: Vec<String> = Vec::new();
    let mut err: Vec<String> = Vec::new();
    match then {
        Then::Saved { name, project, env } => {
            let mut line = concat(name.as_str(), " guardada en ");
            push_str(&mut line, project.as_str());
            push_str(&mut line, "/");
            push_str(&mut line, env.as_str());
            out.push(line);
        },
        Then::Removed { name, project, env } => {
            let mut line = concat(name.as_str(), " ya no está en ");
            push_str(&mut line, project.as_str());
            push_str(&mut line, "/");
            push_str(&mut line, env.as_str());
            out.push(line);
        },
        Then::Lines => {
            out = text_lines(value);
        },
        Then::Created => {
            out.push(text_member(value, "token"));
            let mut line = String::from_str("guardalo: no se vuelve a mostrar. id ");
            push_str(&mut line, text_member(value, "id").as_str());
            push_str(&mut line, ".");
            err.push(line);
        },
        Then::Revoked { id } => {
            let name = match value.text_at("name") {
                Some(n) => n,
                None => id.clone(),
            };
            out.push(concat("revocado ", name.as_str()));
        },
        Then::TokenList => {
            match value {
                Json::Array(items) => {
                    let n = items.len();
                    for i in 0..n
                        invariant
                            n == items@.len(),
                            texts_view(out@) == items@.take(i as int).map_values(
                                |e: Json| text_or_empty(json_get(e, "id"@)) + "  "@ + describe_spec(
                                    e,
                                ),
                            ),
                    {
                        let ghost before = out@;
                        out.push(token_line(&items[i]));
                        assert(texts_view(out@) =~= texts_view(before).push(out@[i as int]@));
                        assert(items@.take(i + 1).map_values(
                            |e: Json| text_or_empty(json_get(e, "id"@)) + "  "@ + describe_spec(e),
                        ) =~= items@.take(i as int).map_values(
                            |e: Json| text_or_empty(json_get(e, "id"@)) + "  "@ + describe_spec(e),
                        ).push(
                            text_or_empty(json_get(items@[i as int], "id"@)) + "  "@
                                + describe_spec(items@[i as int]),
                        ));
                    }
                    assert(items@.take(n as int) == items@);
                },
                _ => {},
            }
        },
        Then::AuditLog => {
            match value {
                Json::Array(items) => {
                    let n = items.len();
                    for i in 0..n
                        invariant
                            n == items@.len(),
                            texts_view(out@) == items@.take(i as int).map_values(
                                |e: Json| audit_line_spec(e),
                            ),
                    {
                        let ghost before = out@;
                        out.push(audit_line(&items[i]));
                        assert(texts_view(out@) =~= texts_view(before).push(out@[i as int]@));
                        assert(items@.take(i + 1).map_values(|e: Json| audit_line_spec(e))
                            =~= items@.take(i as int).map_values(|e: Json| audit_line_spec(e)).push(
                            audit_line_spec(items@[i as int]),
                        ));
                    }
                    assert(items@.take(n as int) == items@);
                },
                _ => {},
            }
        },
    }
    proof {
        assert(texts_view(r_empty()) =~= Seq::<Seq<char>>::empty());
    }
    (out, err)
}

spec fn r_empty() -> Seq<String> {
    Seq::empty()
}

} // verus!
