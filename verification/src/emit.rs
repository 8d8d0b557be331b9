//! Caller-facing output: the unset/export lines a shell evaluates, and
//! the convenience artifacts rendered from the consolidated variables.
//!
//! Every rendering lists variables sorted by name, ascending, so output
//! is reproducible whatever order the maps were built in.

use vstd::prelude::*;

use crate::smap::StrMap;
use crate::text::lex_le;
use crate::text::str_lex_le;

verus! {

/// Inserts a pair into a key-sorted pair list, before the first entry
/// whose key is not smaller.
pub open spec fn insert_sorted(
    p: (Seq<char>, Seq<char>),
    s: Seq<(Seq<char>, Seq<char>)>,
) -> Seq<(Seq<char>, Seq<char>)>
    decreases s.len(),
{
    if s.len() == 0 {
        seq![p]
    } else if lex_le(p.0, s[0].0) {
        seq![p] + s
    } else {
        seq![s[0]] + insert_sorted(p, s.skip(1))
    }
}

/// Sorts a pair list by key, ascending.
pub open spec fn sort_pairs(s: Seq<(Seq<char>, Seq<char>)>) -> Seq<(Seq<char>, Seq<char>)>
    decreases s.len(),
{
    if s.len() == 0 {
        Seq::<(Seq<char>, Seq<char>)>::empty()
    } else {
        insert_sorted(s.last(), sort_pairs(s.drop_last()))
    }
}

/// Keys appear in ascending order.
pub open spec fn sorted_by_key(s: Seq<(Seq<char>, Seq<char>)>) -> bool {
    forall|i: int, j: int| 0 <= i < j < s.len() ==> lex_le(s[i].0, s[j].0)
}

proof fn lemma_insert_sorted_len(p: (Seq<char>, Seq<char>), s: Seq<(Seq<char>, Seq<char>)>)
    ensures
        insert_sorted(p, s).len() == s.len() + 1,
        forall|i: int|
            0 <= i < insert_sorted(p, s).len() ==> #[trigger] insert_sorted(p, s)[i] == p
                || s.contains(insert_sorted(p, s)[i]),
    decreases s.len(),
{
    if s.len() > 0 && !lex_le(p.0, s[0].0) {
        lemma_insert_sorted_len(p, s.skip(1));
        assert forall|i: int| 0 <= i < insert_sorted(p, s).len() implies #[trigger] insert_sorted(
            p,
            s,
        )[i] == p || s.contains(insert_sorted(p, s)[i]) by {
            if i > 0 {
                let e = insert_sorted(p, s)[i];
                assert(e == insert_sorted(p, s.skip(1))[i - 1]);
                if e != p {
                    let w = choose|w: int| 0 <= w < s.skip(1).len() && s.skip(1)[w] == e;
                    assert(s[w + 1] == e);
                }
            }
        }
    }
}

/// Inserting into a sorted list keeps it sorted.
proof fn lemma_insert_sorted_sorted(p: (Seq<char>, Seq<char>), s: Seq<(Seq<char>, Seq<char>)>)
    requires
        sorted_by_key(s),
    ensures
        sorted_by_key(insert_sorted(p, s)),
    decreases s.len(),
{
    if s.len() == 0 {
    } else if lex_le(p.0, s[0].0) {
        let out = seq![p] + s;
        assert forall|i: int, j: int| 0 <= i < j < out.len() implies lex_le(out[i].0, out[j].0) by {
            if i == 0 {
                assert(out[j] == s[j - 1]);
                if j == 1 {
                    assert(lex_le(p.0, s[0].0));
                } else {
                    assert(lex_le(s[0].0, s[j - 1].0));
                    crate::text::lemma_lex_transitive(p.0, s[0].0, s[j - 1].0);
                }
            } else {
                assert(out[i] == s[i - 1] && out[j] == s[j - 1]);
            }
        }
    } else {
        crate::text::lemma_lex_total(p.0, s[0].0);
        assert forall|i: int, j: int| 0 <= i < j < s.skip(1).len() implies lex_le(
            s.skip(1)[i].0,
            s.skip(1)[j].0,
        ) by {
            assert(s.skip(1)[i] == s[i + 1] && s.skip(1)[j] == s[j + 1]);
        }
        lemma_insert_sorted_sorted(p, s.skip(1));
        lemma_insert_sorted_len(p, s.skip(1));
        let rest = insert_sorted(p, s.skip(1));
        let out = seq![s[0]] + rest;
        assert forall|i: int, j: int| 0 <= i < j < out.len() implies lex_le(out[i].0, out[j].0) by {
            if i == 0 {
                let e = rest[j - 1];
                assert(out[j] == e);
                if e == p {
                    assert(lex_le(s[0].0, p.0));
                } else {
                    let w = choose|w: int| 0 <= w < s.skip(1).len() && s.skip(1)[w] == e;
                    assert(s[w + 1] == e);
                    assert(lex_le(s[0].0, s[w + 1].0));
                }
            } else {
                assert(out[i] == rest[i - 1] && out[j] == rest[j - 1]);
            }
        }
    }
}

/// The sort's result is sorted by key, ascending.
pub proof fn lemma_sort_pairs_sorted(s: Seq<(Seq<char>, Seq<char>)>)
    ensures
        sorted_by_key(sort_pairs(s)),
        sort_pairs(s).len() == s.len(),
    decreases s.len(),
{
    if s.len() > 0 {
        lemma_sort_pairs_sorted(s.drop_last());
        lemma_insert_sorted_sorted(s.last(), sort_pairs(s.drop_last()));
        lemma_insert_sorted_len(s.last(), sort_pairs(s.drop_last()));
    }
}

/// Where the new pair lands when each earlier key is smaller and the
/// key at the landing place is not.
proof fn lemma_insert_sorted_at(
    p: (Seq<char>, Seq<char>),
    s: Seq<(Seq<char>, Seq<char>)>,
    idx: int,
)
    requires
        0 <= idx <= s.len(),
        forall|l: int| 0 <= l < idx ==> !lex_le(p.0, #[trigger] s[l].0),
        idx < s.len() ==> lex_le(p.0, s[idx].0),
    ensures
        insert_sorted(p, s) == s.take(idx) + seq![p] + s.skip(idx),
    decreases s.len(),
{
    if s.len() == 0 {
        assert(insert_sorted(p, s) =~= s.take(idx) + seq![p] + s.skip(idx));
    } else if lex_le(p.0, s[0].0) {
        assert(idx == 0);
        assert(seq![p] + s =~= s.take(0) + seq![p] + s.skip(0));
    } else {
        assert(!lex_le(p.0, s[0].0));
        assert(idx > 0);
        assert forall|l: int| 0 <= l < idx - 1 implies !lex_le(p.0, #[trigger] s.skip(1)[l].0) by {
            assert(s.skip(1)[l] == s[l + 1]);
        }
        assert(idx - 1 < s.skip(1).len() ==> lex_le(p.0, s.skip(1)[idx - 1].0));
        lemma_insert_sorted_at(p, s.skip(1), idx - 1);
        assert(seq![s[0]] + (s.skip(1).take(idx - 1) + seq![p] + s.skip(1).skip(idx - 1)) =~= s.take(
            idx,
        ) + seq![p] + s.skip(idx));
    }
}

/// Inserts a pair into a key-sorted vector.
fn insert_sorted_vec(mut v: Vec<(String, String)>, p: (String, String)) -> (r: Vec<
    (String, String),
>)
    ensures
        r.deep_view() == insert_sorted((p.0@, p.1@), v.deep_view()),
{
    let n = v.len();
    let mut idx: usize = 0;
    while idx < n
        invariant_except_break
            idx <= n,
            n == v.deep_view().len(),
            forall|l: int| 0 <= l < idx ==> !lex_le(p.0@, #[trigger] v.deep_view()[l].0),
        ensures
            idx <= n,
            n == v.deep_view().len(),
            forall|l: int| 0 <= l < idx ==> !lex_le(p.0@, #[trigger] v.deep_view()[l].0),
            idx < n ==> lex_le(p.0@, v.deep_view()[idx as int].0),
        decreases n - idx,
    {
        if str_lex_le(p.0.as_str(), v[idx].0.as_str()) {
            break;
        }
        idx += 1;
    }
    proof {
        lemma_insert_sorted_at((p.0@, p.1@), v.deep_view(), idx as int);
    }
    let ghost before = v.deep_view();
    let ghost pv = (p.0@, p.1@);
    v.insert(idx, p);
    proof {
        assert(v.deep_view() =~= before.take(idx as int) + seq![pv] + before.skip(idx as int));
    }
    v
}

/// The entries of a map, sorted by key, ascending.
pub fn sorted_entries(m: &StrMap) -> (r: Vec<(String, String)>)
    ensures
        r.deep_view() == sort_pairs(m.kvs()),
        sorted_by_key(r.deep_view()),
        r.deep_view().len() == m.kvs().len(),
{
    proof {
        lemma_sort_pairs_sorted(m.kvs());
    }
    let entries = m.entries();
    let n = entries.len();
    let mut out: Vec<(String, String)> = Vec::new();
    let mut i: usize = 0;
    proof {
        assert(out.deep_view() =~= sort_pairs(m.kvs().take(0)));
    }
    while i < n
        invariant
            i <= n,
            n == m.kvs().len(),
            entries.deep_view() == m.kvs(),
            out.deep_view() == sort_pairs(m.kvs().take(i as int)),
        decreases n - i,
    {
        let k = entries[i].0.clone();
        let v = entries[i].1.clone();
        out = insert_sorted_vec(out, (k, v));
        proof {
            assert(m.kvs().take(i + 1).drop_last() =~= m.kvs().take(i as int));
            assert(m.kvs().take(i + 1).last() == m.kvs()[i as int]);
        }
        i += 1;
    }
    proof {
        assert(m.kvs().take(n as int) =~= m.kvs());
    }
    out
}

/// The line unsetting one variable.
pub open spec fn unset_line(k: Seq<char>) -> Seq<char> {
    "unset "@ + k
}

/// The line exporting one variable.
pub open spec fn export_line(k: Seq<char>, v: Seq<char>) -> Seq<char> {
    "export "@ + k + "="@ + v
}

/// The unset lines of a pair list, in order.
pub open spec fn unset_lines(s: Seq<(Seq<char>, Seq<char>)>) -> Seq<Seq<char>>
    decreases s.len(),
{
    if s.len() == 0 {
        Seq::<Seq<char>>::empty()
    } else {
        seq![unset_line(s[0].0)] + unset_lines(s.skip(1))
    }
}

/// The export lines of a pair list, in order.
pub open spec fn export_lines(s: Seq<(Seq<char>, Seq<char>)>) -> Seq<Seq<char>>
    decreases s.len(),
{
    if s.len() == 0 {
        Seq::<Seq<char>>::empty()
    } else {
        seq![export_line(s[0].0, s[0].1)] + export_lines(s.skip(1))
    }
}

proof fn lemma_unset_lines_push(s: Seq<(Seq<char>, Seq<char>)>, p: (Seq<char>, Seq<char>))
    ensures
        unset_lines(s.push(p)) == unset_lines(s).push(unset_line(p.0)),
    decreases s.len(),
{
    if s.len() == 0 {
        assert(s.push(p)[0] == p);
        assert(s.push(p).skip(1) =~= Seq::<(Seq<char>, Seq<char>)>::empty());
        assert(unset_lines(s.push(p).skip(1)) =~= Seq::<Seq<char>>::empty());
        assert(unset_lines(s.push(p)) =~= unset_lines(s).push(unset_line(p.0)));
    } else {
        assert(s.push(p)[0] == s[0]);
        assert(s.push(p).skip(1) =~= s.skip(1).push(p));
        lemma_unset_lines_push(s.skip(1), p);
        assert(unset_lines(s.push(p)) == seq![unset_line(s[0].0)] + unset_lines(s.skip(1).push(p)));
        assert(unset_lines(s.push(p)) =~= unset_lines(s).push(unset_line(p.0)));
    }
}

proof fn lemma_export_lines_push(s: Seq<(Seq<char>, Seq<char>)>, p: (Seq<char>, Seq<char>))
    ensures
        export_lines(s.push(p)) == export_lines(s).push(export_line(p.0, p.1)),
    decreases s.len(),
{
    if s.len() == 0 {
        assert(s.push(p)[0] == p);
        assert(s.push(p).skip(1) =~= Seq::<(Seq<char>, Seq<char>)>::empty());
        assert(export_lines(s.push(p).skip(1)) =~= Seq::<Seq<char>>::empty());
        assert(export_lines(s.push(p)) =~= export_lines(s).push(export_line(p.0, p.1)));
    } else {
        assert(s.push(p)[0] == s[0]);
        assert(s.push(p).skip(1) =~= s.skip(1).push(p));
        lemma_export_lines_push(s.skip(1), p);
        assert(export_lines(s.push(p)) == seq![export_line(s[0].0, s[0].1)] + export_lines(s.skip(1).push(p)));
        assert(export_lines(s.push(p)) =~= export_lines(s).push(export_line(p.0, p.1)));
    }
}

/// Lines joined with single newline separators, no trailing one.
pub open spec fn join_lines(ls: Seq<Seq<char>>) -> Seq<char>
    decreases ls.len(),
{
    if ls.len() == 0 {
        Seq::<char>::empty()
    } else if ls.len() == 1 {
        ls[0]
    } else {
        ls[0] + "\n"@ + join_lines(ls.skip(1))
    }
}

proof fn lemma_join_lines_push(ls: Seq<Seq<char>>, x: Seq<char>)
    ensures
        join_lines(ls.push(x)) == if ls.len() == 0 {
            x
        } else {
            join_lines(ls) + "\n"@ + x
        },
    decreases ls.len(),
{
    if ls.len() == 0 {
        assert(ls.push(x)[0] == x);
    } else {
        assert(ls.push(x).skip(1) =~= ls.skip(1).push(x));
        lemma_join_lines_push(ls.skip(1), x);
        assert(ls.push(x)[0] == ls[0]);
        if ls.len() == 1 {
            assert(join_lines(ls.push(x)) =~= join_lines(ls) + "\n"@ + x);
        } else {
            assert(join_lines(ls.push(x)) =~= join_lines(ls) + "\n"@ + x);
        }
    }
}

/// The caller-facing evaluation output for one directory: the sorted
/// unset lines for the old variables, then the sorted export lines for
/// the new ones, joined by newlines.
pub open spec fn eval_output_view(
    oldkvs: Seq<(Seq<char>, Seq<char>)>,
    newkvs: Seq<(Seq<char>, Seq<char>)>,
) -> Seq<char> {
    join_lines(unset_lines(sort_pairs(oldkvs)) + export_lines(sort_pairs(newkvs)))
}

/// Renders the evaluation output for one directory.
pub fn eval_output(old_env: &StrMap, new_env: &StrMap) -> (r: String)
    ensures
        r@ == eval_output_view(old_env.kvs(), new_env.kvs()),
{
    let olds = sorted_entries(old_env);
    let news = sorted_entries(new_env);
    let ghost so = sort_pairs(old_env.kvs());
    let ghost sn = sort_pairs(new_env.kvs());
    let mut lines: Vec<String> = Vec::new();
    let on = olds.len();
    let mut i: usize = 0;
    proof {
        assert(so.take(0) =~= Seq::<(Seq<char>, Seq<char>)>::empty());
        assert(lines.deep_view() =~= unset_lines(so.take(0)));
    }
    while i < on
        invariant
            i <= on,
            on == so.len(),
            olds.deep_view() == so,
            lines.deep_view() == unset_lines(so.take(i as int)),
        decreases on - i,
    {
        let mut line = "unset ".to_owned();
        line.append(olds[i].0.as_str());
        let ghost before = lines.deep_view();
        lines.push(line);
        proof {
            assert(lines.deep_view() =~= before.push(unset_line(so[i as int].0)));
            assert(so.take(i + 1).drop_last() =~= so.take(i as int));
            lemma_unset_lines_push(so.take(i as int), so[i as int]);
            assert(so.take(i as int).push(so[i as int]) =~= so.take(i + 1));
        }
        i += 1;
    }
    proof {
        assert(so.take(on as int) =~= so);
    }
    let nn = news.len();
    let mut j: usize = 0;
    proof {
        assert(sn.take(0) =~= Seq::<(Seq<char>, Seq<char>)>::empty());
        assert(lines.deep_view() =~= unset_lines(so) + export_lines(sn.take(0)));
    }
    while j < nn
        invariant
            j <= nn,
            nn == sn.len(),
            news.deep_view() == sn,
            lines.deep_view() == unset_lines(so) + export_lines(sn.take(j as int)),
        decreases nn - j,
    {
        let mut line = "export ".to_owned();
        line.append(news[j].0.as_str());
        line.append("=");
        line.append(news[j].1.as_str());
        let ghost before = lines.deep_view();
        lines.push(line);
        proof {
            assert(line@ == export_line(sn[j as int].0, sn[j as int].1));
            assert(lines.deep_view() =~= before.push(export_line(sn[j as int].0, sn[j as int].1)));
            lemma_export_lines_push(sn.take(j as int), sn[j as int]);
            assert(sn.take(j as int).push(sn[j as int]) =~= sn.take(j + 1));
        }
        j += 1;
    }
    proof {
        assert(sn.take(nn as int) =~= sn);
    }
    let ghost lsv = unset_lines(so) + export_lines(sn);
    let ln = lines.len();
    let mut out = String::new();
    let mut w: usize = 0;
    proof {
        assert(lsv.take(0) =~= Seq::<Seq<char>>::empty());
    }
    while w < ln
        invariant
            w <= ln,
            ln == lsv.len(),
            lines.deep_view() == lsv,
            out@ == join_lines(lsv.take(w as int)),
        decreases ln - w,
    {
        if w > 0 {
            out.append("\n");
        }
        out.append(lines[w].as_str());
        proof {
            lemma_join_lines_push(lsv.take(w as int), lsv[w as int]);
            assert(lsv.take(w as int).push(lsv[w as int]) =~= lsv.take(w + 1));
        }
        w += 1;
    }
    proof {
        assert(lsv.take(ln as int) =~= lsv);
    }
    out
}

/// One line of the plain key=value artifact.
pub open spec fn kv_line(p: (Seq<char>, Seq<char>)) -> Seq<char> {
    p.0 + "="@ + p.1 + "\n"@
}

/// The key=value lines of a pair list, concatenated.
pub open spec fn kv_lines(s: Seq<(Seq<char>, Seq<char>)>) -> Seq<char>
    decreases s.len(),
{
    if s.len() == 0 {
        Seq::<char>::empty()
    } else {
        kv_line(s[0]) + kv_lines(s.skip(1))
    }
}

proof fn lemma_kv_lines_push(s: Seq<(Seq<char>, Seq<char>)>, p: (Seq<char>, Seq<char>))
    ensures
        kv_lines(s.push(p)) == kv_lines(s) + kv_line(p),
    decreases s.len(),
{
    if s.len() == 0 {
        assert(s.push(p)[0] == p);
        assert(s.push(p).skip(1) =~= Seq::<(Seq<char>, Seq<char>)>::empty());
        assert(kv_lines(s.push(p).skip(1)) =~= Seq::<char>::empty());
        assert(kv_lines(s.push(p)) =~= kv_lines(s) + kv_line(p));
    } else {
        assert(s.push(p)[0] == s[0]);
        assert(s.push(p).skip(1) =~= s.skip(1).push(p));
        lemma_kv_lines_push(s.skip(1), p);
        assert(kv_lines(s.push(p)) == kv_line(s[0]) + kv_lines(s.skip(1).push(p)));
        assert(kv_lines(s.push(p)) =~= kv_lines(s) + kv_line(p));
    }
}

/// The generated-file banner.
pub open spec fn generated_header() -> Seq<char> {
    "# Generated - managed by `activate`.\n\n"@
}

/// The plain key=value artifact for the new variables, sorted by name.
pub open spec fn dotenv_view(kvs: Seq<(Seq<char>, Seq<char>)>) -> Seq<char> {
    generated_header() + kv_lines(sort_pairs(kvs))
}

/// Renders the plain key=value artifact.
pub fn render_dotenv(new_env: &StrMap) -> (r: String)
    ensures
        r@ == dotenv_view(new_env.kvs()),
{
    let news = sorted_entries(new_env);
    let ghost sn = sort_pairs(new_env.kvs());
    let mut out = "# Generated - managed by `activate`.\n\n".to_owned();
    let n = news.len();
    let mut i: usize = 0;
    proof {
        assert(sn.take(0) =~= Seq::<(Seq<char>, Seq<char>)>::empty());
        assert(out@ =~= generated_header() + kv_lines(sn.take(0)));
    }
    while i < n
        invariant
            i <= n,
            n == sn.len(),
            news.deep_view() == sn,
            out@ == generated_header() + kv_lines(sn.take(i as int)),
        decreases n - i,
    {
        out.append(news[i].0.as_str());
        out.append("=");
        out.append(news[i].1.as_str());
        out.append("\n");
        proof {
            lemma_kv_lines_push(sn.take(i as int), sn[i as int]);
            assert(sn.take(i as int).push(sn[i as int]) =~= sn.take(i + 1));
            assert(out@ =~= generated_header() + kv_lines(sn.take(i + 1)));
        }
        i += 1;
    }
    proof {
        assert(sn.take(n as int) =~= sn);
    }
    out
}

/// One line of the templated configuration artifact.
pub open spec fn configmap_line(p: (Seq<char>, Seq<char>)) -> Seq<char> {
    "  "@ + p.0 + ": \""@ + p.1 + "\"\n"@
}

/// The templated lines of a pair list, concatenated.
pub open spec fn configmap_lines(s: Seq<(Seq<char>, Seq<char>)>) -> Seq<char>
    decreases s.len(),
{
    if s.len() == 0 {
        Seq::<char>::empty()
    } else {
        configmap_line(s[0]) + configmap_lines(s.skip(1))
    }
}

proof fn lemma_configmap_lines_push(s: Seq<(Seq<char>, Seq<char>)>, p: (Seq<char>, Seq<char>))
    ensures
        configmap_lines(s.push(p)) == configmap_lines(s) + configmap_line(p),
    decreases s.len(),
{
    if s.len() == 0 {
        assert(s.push(p)[0] == p);
        assert(s.push(p).skip(1) =~= Seq::<(Seq<char>, Seq<char>)>::empty());
        assert(configmap_lines(s.push(p).skip(1)) =~= Seq::<char>::empty());
        assert(configmap_lines(s.push(p)) =~= configmap_lines(s) + configmap_line(p));
    } else {
        assert(s.push(p)[0] == s[0]);
        assert(s.push(p).skip(1) =~= s.skip(1).push(p));
        lemma_configmap_lines_push(s.skip(1), p);
        assert(configmap_lines(s.push(p)) == configmap_line(s[0]) + configmap_lines(s.skip(1).push(p)));
        assert(configmap_lines(s.push(p)) =~= configmap_lines(s) + configmap_line(p));
    }
}

/// The head of the templated configuration artifact, naming the map.
pub open spec fn configmap_header(name: Seq<char>) -> Seq<char> {
    "# Generated - managed by `activate`.\n\napiVersion: v1\nkind: ConfigMap\nmetadata:\n  name: "@
        + name + "\ndata:\n"@
}

/// The templated configuration artifact for the new variables.
pub open spec fn configmap_view(name: Seq<char>, kvs: Seq<(Seq<char>, Seq<char>)>) -> Seq<char> {
    configmap_header(name) + configmap_lines(sort_pairs(kvs))
}

/// Renders the templated configuration artifact.
pub fn render_configmap(name: &str, new_env: &StrMap) -> (r: String)
    ensures
        r@ == configmap_view(name@, new_env.kvs()),
{
    let news = sorted_entries(new_env);
    let ghost sn = sort_pairs(new_env.kvs());
    let mut out =
        "# Generated - managed by `activate`.\n\napiVersion: v1\nkind: ConfigMap\nmetadata:\n  name: ".to_owned();
    out.append(name);
    out.append("\ndata:\n");
    let n = news.len();
    let mut i: usize = 0;
    proof {
        assert(sn.take(0) =~= Seq::<(Seq<char>, Seq<char>)>::empty());
        assert(out@ =~= configmap_header(name@) + configmap_lines(sn.take(0)));
    }
    while i < n
        invariant
            i <= n,
            n == sn.len(),
            news.deep_view() == sn,
            out@ == configmap_header(name@) + configmap_lines(sn.take(i as int)),
        decreases n - i,
    {
        out.append("  ");
        out.append(news[i].0.as_str());
        out.append(": \"");
        out.append(news[i].1.as_str());
        out.append("\"\n");
        proof {
            lemma_configmap_lines_push(sn.take(i as int), sn[i as int]);
            assert(sn.take(i as int).push(sn[i as int]) =~= sn.take(i + 1));
            assert(out@ =~= configmap_header(name@) + configmap_lines(sn.take(i + 1)));
        }
        i += 1;
    }
    proof {
        assert(sn.take(n as int) =~= sn);
    }
    out
}

} // verus!
