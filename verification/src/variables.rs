//! The variable namespace assembler: three precedence-ordered passes
//! over one namespace — environment variables, config file content,
//! command-line definitions — later passes overriding earlier ones.

use vstd::prelude::*;
use vstd::string::StrSliceExecFns;
use vstd::string::StringExecFns;

use crate::coerce::coerce_spec;
use crate::coerce::string_to_typed_value;
use crate::config::ConfigLoaderFactory;
use crate::config::decode_entries_for;
use crate::config::format_config_of;
use crate::config::format_of_ext;
use crate::config::insert_decoded;
use crate::config::insert_entries;
use crate::error::ShinkansenError;
use crate::namespace::Namespace;
use crate::namespace::merge_model;
use crate::text::chars_to_string;
use crate::text::split_plain;
use crate::text::lemma_split_single_piece;
use crate::text::split_plain_spec;
use crate::text::str_to_chars;
use crate::text::trim;
use crate::text::trim_spec;
use crate::tokenize::escaped_at;
use crate::tokenize::split_unescaped;
use crate::tokenize::split_unescaped_spec;
use crate::unescape::unescape_spec;
use crate::unescape::unescape_value;
use crate::value::VModel;

verus! {

broadcast use {
    vstd::seq::group_seq_axioms,
    vstd::std_specs::vec::group_vec_axioms,
};

/// The position of the first unescaped `=` at or after `j`, or the
/// length if there is none.
pub open spec fn eq_pos_from(s: Seq<char>, j: int) -> int
    decreases s.len() - j,
{
    if j >= s.len() {
        s.len() as int
    } else if s[j] == '=' && !escaped_at(s, j) {
        j
    } else {
        eq_pos_from(s, j + 1)
    }
}

/// The position of the first unescaped `=`, or the length if none.
pub open spec fn eq_pos(s: Seq<char>) -> int {
    eq_pos_from(s, 0)
}

/// A well-formed KEY=VALUE token: the separator exists and leaves both
/// a non-empty key and a non-empty value.
pub open spec fn token_ok(tok: Seq<char>) -> bool {
    0 < eq_pos(tok) < tok.len() - 1
}

/// The key part of a token: everything before the separator.
pub open spec fn token_key(tok: Seq<char>) -> Seq<char> {
    tok.subrange(0, eq_pos(tok))
}

/// The raw, still-escaped value part of a token: everything after the
/// separator.
pub open spec fn token_raw_value(tok: Seq<char>) -> Seq<char> {
    tok.subrange(eq_pos(tok) + 1, tok.len() as int)
}

/// The message reported for a malformed token.
pub open spec fn invalid_format_msg(tok: Seq<char>) -> Seq<char> {
    ("Invalid variable format: '")@ + tok + ("'. Use KEY=VALUE")@
}

/// What one token does to the namespace: its key becomes a dotted path,
/// its value is unescaped and coerced, and the result is merged in.
pub open spec fn apply_token(m: Map<Seq<char>, VModel>, tok: Seq<char>) -> Map<Seq<char>, VModel> {
    merge_model(
        m,
        split_plain_spec(token_key(tok), '.'),
        coerce_spec(unescape_spec(token_raw_value(tok))),
    )
}

/// What a sequence of tokens does: applied left to right, stopping at
/// the first malformed token, which is reported.
pub open spec fn apply_tokens(m: Map<Seq<char>, VModel>, toks: Seq<Seq<char>>) -> Result<
    Map<Seq<char>, VModel>,
    Seq<char>,
>
    decreases toks.len(),
{
    if toks.len() == 0 {
        Ok(m)
    } else if !token_ok(toks[0]) {
        Err(toks[0])
    } else {
        apply_tokens(apply_token(m, toks[0]), toks.subrange(1, toks.len() as int))
    }
}

/// What a sequence of definitions does: each is tokenized on unescaped
/// commas and its tokens applied, left to right, stopping at the first
/// malformed token.
pub open spec fn apply_defs(m: Map<Seq<char>, VModel>, defs: Seq<Seq<char>>) -> Result<
    Map<Seq<char>, VModel>,
    Seq<char>,
>
    decreases defs.len(),
{
    if defs.len() == 0 {
        Ok(m)
    } else {
        match apply_tokens(m, split_unescaped_spec(defs[0], ',')) {
            Ok(m2) => apply_defs(m2, defs.subrange(1, defs.len() as int)),
            Err(e) => Err(e),
        }
    }
}

/// Split a token at its first unescaped `=`, yielding key and raw
/// value; `None` when the separator is missing or either side is empty.
#[verifier::loop_isolation(false)]
fn token_parse(tok: &str) -> (r: Option<(String, String)>)
    ensures
        (match r {
            Some(kv) => token_ok(tok@) && kv.0@ == token_key(tok@) && kv.1@ == token_raw_value(
                tok@,
            ),
            None => !token_ok(tok@),
        }),
{
    let chars = str_to_chars(tok);
    let n = chars.len();
    let mut in_escape = false;
    let mut p: usize = 0;
    while p < n && !(chars[p] == '=' && !in_escape)
        invariant
            p <= n,
            in_escape == escaped_at(tok@, p as int),
            eq_pos(tok@) == eq_pos_from(tok@, p as int),
        decreases n - p,
    {
        in_escape = !in_escape && chars[p] == '\\';
        p = p + 1;
    }
    proof {
        assert(eq_pos(tok@) == p);
    }
    if p == 0 || p >= n || p + 1 >= n {
        return None;
    }
    let mut key_chars: Vec<char> = Vec::new();
    let mut i: usize = 0;
    while i < p
        invariant
            i <= p,
            p < n,
            key_chars@ == tok@.subrange(0, i as int),
        decreases p - i,
    {
        key_chars.push(chars[i]);
        i = i + 1;
        proof {
            assert(key_chars@ =~= tok@.subrange(0, i as int));
        }
    }
    let mut value_chars: Vec<char> = Vec::new();
    let mut j: usize = p + 1;
    while j < n
        invariant
            p + 1 <= j <= n,
            value_chars@ == tok@.subrange(p + 1, j as int),
        decreases n - j,
    {
        value_chars.push(chars[j]);
        j = j + 1;
        proof {
            assert(value_chars@ =~= tok@.subrange(p + 1, j as int));
        }
    }
    proof {
        assert(tok@.subrange(0, 0int) =~= Seq::<char>::empty());
        assert(tok@.subrange(p + 1, p + 1) =~= Seq::<char>::empty());
    }
    Some((chars_to_string(&key_chars), chars_to_string(&value_chars)))
}

/// Collect variables from command-line definitions.
///
/// Each definition is split on unescaped commas into KEY=VALUE tokens;
/// each key becomes a dotted path, each value is unescaped and coerced,
/// and the result is merged into the namespace, left to right. The
/// first malformed token aborts the whole pass with a
/// `VariableParseError` naming it and leaves the namespace unchanged:
/// no partial result survives a failure.
#[verifier::loop_isolation(false)]
pub fn collect_cli_variables(variables: &mut Namespace, cli_vars: &Vec<String>) -> (r: Result<
    (),
    ShinkansenError,
>)
    requires
        old(variables).wf(),
    ensures
        final(variables).wf(),
        (match apply_defs(old(variables)@, cli_vars.deep_view()) {
            Ok(m) => r is Ok && final(variables)@ == m,
            Err(tok) => r matches Err(e) && e matches ShinkansenError::VariableParseError(msg)
                && msg@ == invalid_format_msg(tok) && final(variables)@ == old(variables)@,
        }),
{
    // Work on a copy: a malformed token must leave the namespace as
    // it was, so the result is committed only when every token parsed.
    let mut scratch = variables.duplicate();
    let ghost all_defs = cli_vars.deep_view();
    let ghost m0 = variables@;
    let nd = cli_vars.len();
    proof {
        assert(all_defs.skip(0) =~= all_defs);
    }
    let mut di: usize = 0;
    while di < nd
        invariant
            scratch.wf(),
            di <= nd,
            apply_defs(m0, all_defs) == apply_defs(scratch@, all_defs.skip(di as int)),
        decreases nd - di,
    {
        let toks = split_unescaped(cli_vars[di].as_str(), ',');
        let ghost tok_views = toks.deep_view();
        proof {
            assert(all_defs[di as int] == cli_vars@[di as int]@);
            assert(all_defs.skip(di as int)[0] == all_defs[di as int]);
            assert(all_defs.skip(di as int).subrange(1, all_defs.skip(di as int).len() as int)
                =~= all_defs.skip(di as int + 1));
            assert(tok_views.skip(0) =~= tok_views);
        }
        let nt = toks.len();
        let mut ti: usize = 0;
        while ti < nt
            invariant
                scratch.wf(),
                ti <= nt,
                nt == tok_views.len(),
                tok_views == split_unescaped_spec(all_defs[di as int], ','),
                apply_defs(m0, all_defs) == (match apply_tokens(
                    scratch@,
                    tok_views.skip(ti as int),
                ) {
                    Ok(m2) => apply_defs(m2, all_defs.skip(di as int + 1)),
                    Err(e) => Err(e),
                }),
            decreases nt - ti,
        {
            proof {
                assert(tok_views.skip(ti as int)[0] == tok_views[ti as int]);
                assert(tok_views[ti as int] == toks@[ti as int]@);
                assert(tok_views.skip(ti as int).subrange(
                    1,
                    tok_views.skip(ti as int).len() as int,
                ) =~= tok_views.skip(ti as int + 1));
            }
            match token_parse(toks[ti].as_str()) {
                Some((key, raw)) => {
                    let unescaped = unescape_value(raw.as_str());
                    let tv = string_to_typed_value(unescaped.as_str());
                    scratch.insert_nested(key.as_str(), tv);
                },
                None => {
                    let msg = String::from_str("Invalid variable format: '").concat(
                        toks[ti].as_str(),
                    ).concat("'. Use KEY=VALUE");
                    return Err(ShinkansenError::VariableParseError(msg));
                },
            }
            ti = ti + 1;
        }
        proof {
            assert(tok_views.skip(nt as int) =~= Seq::<Seq<char>>::empty());
        }
        di = di + 1;
    }
    proof {
        assert(all_defs.skip(nd as int) =~= Seq::<Seq<char>>::empty());
    }
    *variables = scratch;
    Ok(())
}

/// Net precedence for a top-level key: a definition that tokenizes to
/// one well-formed KEY=VALUE token with an undotted key binds that key
/// to the token's own unescaped, coerced value, over any namespace the
/// earlier passes produced. A command-line write therefore beats both
/// the config-file pass and the environment pass for its key — and by
/// `lemma_merge_preserves_siblings` it touches no other key.
pub proof fn lemma_cli_precedence(m: Map<Seq<char>, VModel>, def: Seq<char>)
    requires
        split_unescaped_spec(def, ',') == seq![def],
        token_ok(def),
        split_plain_spec(token_key(def), '.').len() == 1,
    ensures
        apply_defs(m, seq![def]) matches Ok(m2) && m2.dom().contains(token_key(def))
            && m2[token_key(def)] == coerce_spec(unescape_spec(token_raw_value(def))),
{
    reveal_with_fuel(apply_tokens, 2);
    reveal_with_fuel(apply_defs, 2);
    let defs = seq![def];
    let toks = split_unescaped_spec(def, ',');
    assert(defs[0] == def);
    assert(toks.len() == 1 && toks[0] == def);
    assert(toks.subrange(1, 1) =~= Seq::<Seq<char>>::empty());
    assert(defs.subrange(1, 1) =~= Seq::<Seq<char>>::empty());
    let m1 = apply_token(m, def);
    assert(apply_tokens(m, toks) == Ok::<Map<Seq<char>, VModel>, Seq<char>>(m1));
    assert(apply_defs(m, defs) == Ok::<Map<Seq<char>, VModel>, Seq<char>>(m1));
    lemma_split_single_piece(token_key(def), '.');
    let path = split_plain_spec(token_key(def), '.');
    assert(path.len() == 1 && path[0] == token_key(def));
    assert(m1 == m.insert(token_key(def), coerce_spec(unescape_spec(token_raw_value(def)))));
}

/// The model of looked-up environment values: each name with the value
/// found for it, or nothing when the name was unbound.
pub open spec fn env_pairs_model(ps: Seq<(String, Option<String>)>) -> Seq<
    (Seq<char>, Option<Seq<char>>),
> {
    Seq::new(
        ps.len(),
        |i: int|
            (
                ps[i].0@,
                match ps[i].1 {
                    Some(v) => Some(v@),
                    None => None,
                },
            ),
    )
}

/// What the environment pass does: each bound name has its value
/// unescaped, coerced and bound flatly under the exact name; unbound
/// names change nothing.
pub open spec fn apply_env(
    m: Map<Seq<char>, VModel>,
    pairs: Seq<(Seq<char>, Option<Seq<char>>)>,
) -> Map<Seq<char>, VModel>
    decreases pairs.len(),
{
    if pairs.len() == 0 {
        m
    } else {
        let prev = apply_env(m, pairs.drop_last());
        match pairs.last().1 {
            Some(v) => prev.insert(pairs.last().0, coerce_spec(unescape_spec(v))),
            None => prev,
        }
    }
}

/// An absent environment variable leaves the namespace unchanged for
/// its name: if every pair carrying `name` is unbound, the binding of
/// `name` after the pass is exactly what it was before.
pub proof fn lemma_env_absent(
    m: Map<Seq<char>, VModel>,
    pairs: Seq<(Seq<char>, Option<Seq<char>>)>,
    name: Seq<char>,
)
    requires
        forall|i: int| 0 <= i < pairs.len() && (#[trigger] pairs[i]).0 == name ==> pairs[i].1 is None,
    ensures
        apply_env(m, pairs).dom().contains(name) == m.dom().contains(name),
        m.dom().contains(name) ==> apply_env(m, pairs)[name] == m[name],
    decreases pairs.len(),
{
    if pairs.len() > 0 {
        assert(forall|i: int|
            0 <= i < pairs.drop_last().len() && (#[trigger] pairs.drop_last()[i]).0 == name
                ==> pairs.drop_last()[i].1 is None);
        lemma_env_absent(m, pairs.drop_last(), name);
        if pairs.last().1 is Some {
            assert(pairs[pairs.len() - 1].0 != name);
        }
    }
}

/// Collect variables from looked-up environment values.
///
/// Each pair is a variable name with the value the environment holds
/// for it, if any. Bound values are unescaped, coerced and bound flatly
/// under the exact name; unbound names are silently skipped. Never
/// fails.
#[verifier::loop_isolation(false)]
pub fn collect_env_variables(
    variables: &mut Namespace,
    env_values: &Vec<(String, Option<String>)>,
) -> (r: Result<(), ShinkansenError>)
    requires
        old(variables).wf(),
    ensures
        final(variables).wf(),
        r is Ok,
        final(variables)@ == apply_env(old(variables)@, env_pairs_model(env_values@)),
{
    let ghost m0 = variables@;
    let ghost all = env_pairs_model(env_values@);
    let n = env_values.len();
    let mut i: usize = 0;
    while i < n
        invariant
            variables.wf(),
            i <= n,
            variables@ == apply_env(m0, all.take(i as int)),
        decreases n - i,
    {
        proof {
            assert(all[i as int] == (
                env_values@[i as int].0@,
                match env_values@[i as int].1 {
                    Some(v) => Some(v@),
                    None => None,
                },
            ));
            assert(all.take(i as int + 1).drop_last() =~= all.take(i as int));
            assert(all.take(i as int + 1).last() == all[i as int]);
        }
        match &env_values[i].1 {
            Some(v) => {
                let unescaped = unescape_value(v.as_str());
                let tv = string_to_typed_value(unescaped.as_str());
                let name: String = env_values[i].0.clone();
                variables.insert(name, tv);
            },
            None => {},
        }
        i = i + 1;
    }
    proof {
        assert(all.take(n as int) =~= all);
    }
    Ok(())
}

/// The environment variable names in a `--env` value: the comma
/// separated pieces, each trimmed of surrounding white space.
pub open spec fn env_names_spec(s: Seq<char>) -> Seq<Seq<char>> {
    split_plain_spec(s, ',').map_values(|p: Seq<char>| trim_spec(p))
}

/// Split a `--env` value into the variable names it lists.
#[verifier::loop_isolation(false)]
pub fn split_env_names(list: &str) -> (r: Vec<String>)
    ensures
        r.deep_view() == env_names_spec(list@),
{
    let pieces = split_plain(list, ',');
    let ghost piece_views = pieces.deep_view();
    let n = pieces.len();
    let mut out: Vec<String> = Vec::new();
    let mut i: usize = 0;
    while i < n
        invariant
            i <= n,
            out@.len() == i,
            forall|k: int| 0 <= k < i ==> (#[trigger] out@[k])@ == trim_spec(piece_views[k]),
        decreases n - i,
    {
        proof {
            assert(piece_views[i as int] == pieces@[i as int]@);
        }
        let t = trim(pieces[i].as_str());
        out.push(t);
        i = i + 1;
    }
    proof {
        assert(out.deep_view() =~= env_names_spec(list@));
    }
    out
}

/// Collect variables from configuration file content.
///
/// The extension selects the decoder (`json`, `yaml`/`yml`, `toml`; any
/// other is an error naming the accepted set). Decoded entries are
/// bound flatly, dots in config keys never forming paths. On any error
/// the namespace is left unchanged.
pub fn collect_config_variables(
    variables: &mut Namespace,
    content: &str,
    extension: &str,
) -> (r: Result<(), ShinkansenError>)
    requires
        old(variables).wf(),
    ensures
        final(variables).wf(),
        (match format_of_ext(extension@) {
            None => r matches Err(e) && e matches ShinkansenError::ConfigParseError(msg) && msg@
                == ("Unsupported config file format. Use .json, .yaml, .yml, or .toml")@ && final(variables)@ == old(variables)@,
            Some(f) => (match format_config_of(f, content@) {
                None => r matches Err(e) && e is ConfigParseError && final(variables)@
                    == old(variables)@,
                Some(es) => r is Ok && final(variables)@ == insert_entries(old(variables)@, es),
            }),
        }),
{
    match ConfigLoaderFactory::create_loader(extension) {
        None => Err(
            ShinkansenError::ConfigParseError(
                String::from_str("Unsupported config file format. Use .json, .yaml, .yml, or .toml"),
            ),
        ),
        Some(format) => match decode_entries_for(&format, content) {
            Ok(entries) => {
                insert_decoded(variables, entries);
                Ok(())
            },
            Err(msg) => Err(ShinkansenError::ConfigParseError(msg)),
        },
    }
}

/// Whether the command-line pass starting from `m` explains result `r`:
/// success yields exactly the merged namespace, and a malformed token
/// yields a `VariableParseError` naming it.
pub open spec fn cli_outcome(
    m: Map<Seq<char>, VModel>,
    defs: Seq<Seq<char>>,
    r: Result<Namespace, ShinkansenError>,
) -> bool {
    match apply_defs(m, defs) {
        Ok(m2) => r matches Ok(ns) && ns@ == m2 && ns.wf(),
        Err(tok) => r matches Err(e) && e matches ShinkansenError::VariableParseError(msg)
            && msg@ == invalid_format_msg(tok),
    }
}

/// Collect all template variables with proper precedence.
///
/// Three strictly ordered passes build one namespace: environment
/// values (only when a list was supplied), config file content (only
/// when one was given, as content and extension), then command-line
/// definitions. Later passes override earlier ones for the same
/// top-level key; the first error aborts the assembly and no namespace
/// is returned.
pub fn collect_variables(
    env_values: &Option<Vec<(String, Option<String>)>>,
    config: &Option<(String, String)>,
    cli_vars: &Vec<String>,
) -> (r: Result<Namespace, ShinkansenError>)
    ensures
        ({
            let m_env = match *env_values {
                Some(ps) => apply_env(Map::empty(), env_pairs_model(ps@)),
                None => Map::<Seq<char>, VModel>::empty(),
            };
            match *config {
                Some(cc) => (match format_of_ext(cc.1@) {
                    None => r matches Err(e) && e matches ShinkansenError::ConfigParseError(msg)
                        && msg@ == (
                    "Unsupported config file format. Use .json, .yaml, .yml, or .toml")@,
                    Some(f) => (match format_config_of(f, cc.0@) {
                        None => r matches Err(e) && e is ConfigParseError,
                        Some(es) => cli_outcome(
                            insert_entries(m_env, es),
                            cli_vars.deep_view(),
                            r,
                        ),
                    }),
                }),
                None => cli_outcome(m_env, cli_vars.deep_view(), r),
            }
        }),
{
    let mut variables = Namespace::new();
    match env_values {
        Some(pairs) => {
            let _ = collect_env_variables(&mut variables, pairs);
        },
        None => {},
    }
    match config {
        Some(cc) => {
            match collect_config_variables(&mut variables, cc.0.as_str(), cc.1.as_str()) {
                Ok(_u) => {},
                Err(e) => {
                    return Err(e);
                },
            }
        },
        None => {},
    }
    match collect_cli_variables(&mut variables, cli_vars) {
        Ok(_u) => Ok(variables),
        Err(e) => Err(e),
    }
}

} // verus!
