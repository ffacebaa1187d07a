//! Content-Security-Policy sanitisation for instrumented responses.
//!
//! Script bodies are rewritten during instrumentation, so hash- and
//! nonce-pinned source entries in script-loading directives can no longer
//! match and would block every script. Sanitisation removes exactly those
//! entries — `'sha256-…'`, `'sha384-…'`, `'sha512-…'`, `'nonce-…'` and
//! `'strict-dynamic'` — from `script-src` and `script-src-elem` (or from
//! `default-src` when neither is present, since browsers then fall back
//! to it for script loading), and drops `report-uri` / `report-to`
//! directives so instrumentation activity cannot send false violation
//! reports. A directive left without values is omitted rather than
//! emitted empty; a policy left without directives is omitted entirely.

use vstd::prelude::*;

use crate::chars::copy_range;
use crate::chars::copy_vec;
use crate::chars::eq_lower;
use crate::chars::extend_vec;
use crate::chars::find_space;
use crate::chars::find_space_exec;
use crate::chars::is_space;
use crate::chars::join;
use crate::chars::join_from;
use crate::chars::lemma_find_space;
use crate::chars::lower_seq;
use crate::chars::prefix_eq_lower;
use crate::chars::split_on;
use crate::chars::split_on_exec;
use crate::chars::starts_with;
use crate::chars::starts_with_lower;
use crate::chars::str_chars;
use crate::chars::chars_to_string;
use crate::chars::tokens;
use crate::chars::tokens_exec;
use crate::chars::trim;
use crate::chars::trim_exec;
use crate::chars::views_of;

verus! {

/// A source value that survives sanitisation: not a hash, not a nonce,
/// not `'strict-dynamic'`.
pub open spec fn keeps_token(t: Seq<char>) -> bool {
    !starts_with(lower_seq(t), "'sha256-"@) && !starts_with(lower_seq(t), "'sha384-"@)
        && !starts_with(lower_seq(t), "'sha512-"@) && !starts_with(lower_seq(t), "'nonce-"@)
        && lower_seq(t) != "'strict-dynamic'"@
}

/// The directive's name: its characters up to the first whitespace.
pub open spec fn directive_name(d: Seq<char>) -> Seq<char> {
    d.take(find_space(d))
}

pub open spec fn name_lower(d: Seq<char>) -> Seq<char> {
    lower_seq(directive_name(d))
}

/// A directive that controls script loading directly.
pub open spec fn is_script_src_directive(d: Seq<char>) -> bool {
    name_lower(d) == "script-src"@ || name_lower(d) == "script-src-elem"@
}

pub open spec fn is_default_src_directive(d: Seq<char>) -> bool {
    name_lower(d) == "default-src"@
}

pub open spec fn is_report_directive(d: Seq<char>) -> bool {
    name_lower(d) == "report-uri"@ || name_lower(d) == "report-to"@
}

/// The trimmed, non-empty segments of a segment list.
pub open spec fn trimmed_of(segs: Seq<Seq<char>>) -> Seq<Seq<char>>
    decreases segs.len(),
{
    if segs.len() == 0 {
        Seq::empty()
    } else {
        let t = trim(segs[0]);
        let rest = trimmed_of(segs.drop_first());
        if t.len() > 0 {
            seq![t] + rest
        } else {
            rest
        }
    }
}

/// The directives of a policy: split on `;`, trimmed, empties dropped.
pub open spec fn directives_of(csp: Seq<char>) -> Seq<Seq<char>> {
    trimmed_of(split_on(csp, ';'))
}

/// Does any directive of the list control script loading directly?
pub open spec fn has_script_src(ds: Seq<Seq<char>>) -> bool
    decreases ds.len(),
{
    if ds.len() == 0 {
        false
    } else {
        is_script_src_directive(ds[0]) || has_script_src(ds.drop_first())
    }
}

/// The values of the directive that survive sanitisation.
pub open spec fn kept_tokens(d: Seq<char>) -> Seq<Seq<char>> {
    tokens(d.skip(find_space(d))).filter(|t: Seq<char>| keeps_token(t))
}

/// One directive sanitised: `None` means the directive is omitted.
pub open spec fn sanitize_directive(d: Seq<char>, has_script: bool) -> Option<Seq<char>> {
    if is_report_directive(d) {
        None
    } else if is_script_src_directive(d) || (!has_script && is_default_src_directive(d)) {
        let kept = kept_tokens(d);
        if kept.len() == 0 {
            None
        } else {
            Some(directive_name(d) + " "@ + join(kept, " "@))
        }
    } else {
        Some(d)
    }
}

/// Every directive sanitised, omissions dropped.
pub open spec fn sanitized_of(ds: Seq<Seq<char>>, has_script: bool) -> Seq<Seq<char>>
    decreases ds.len(),
{
    if ds.len() == 0 {
        Seq::empty()
    } else {
        let rest = sanitized_of(ds.drop_first(), has_script);
        match sanitize_directive(ds[0], has_script) {
            Some(x) => seq![x] + rest,
            None => rest,
        }
    }
}

/// The whole policy sanitised; `None` when nothing of it remains.
pub open spec fn sanitize_spec(csp: Seq<char>) -> Option<Seq<char>> {
    let ds = directives_of(csp);
    let outs = sanitized_of(ds, has_script_src(ds));
    if outs.len() == 0 {
        None
    } else {
        Some(join(outs, "; "@))
    }
}

/// Trims the segments, dropping those that trim to nothing.
fn trimmed_exec(segs: Vec<Vec<char>>) -> (r: Vec<Vec<char>>)
    ensures
        views_of(r@) == trimmed_of(views_of(segs@)),
    decreases segs@.len(),
{
    let mut segs = segs;
    if segs.len() == 0 {
        let r: Vec<Vec<char>> = Vec::new();
        proof {
            assert(views_of(r@) =~= trimmed_of(views_of(segs@)));
        }
        return r;
    }
    let ghost s0 = views_of(segs@);
    let head = segs.remove(0);
    proof {
        assert(views_of(segs@) =~= s0.drop_first());
    }
    let t = trim_exec(head);
    let mut rest = trimmed_exec(segs);
    if t.len() > 0 {
        rest.insert(0, t);
        proof {
            assert(views_of(rest@) =~= seq![trim(s0[0])] + trimmed_of(s0.drop_first()));
        }
    } else {
        proof {
            assert(views_of(rest@) =~= trimmed_of(s0));
        }
    }
    rest
}

/// Is the directive a script-loading one?
fn is_script_src_exec(d: &Vec<char>) -> (r: bool)
    ensures
        r == is_script_src_directive(d@),
{
    proof {
        lemma_find_space(d@);
    }
    let nl = find_space_exec(d);
    prefix_eq_lower(d, nl, "script-src") || prefix_eq_lower(d, nl, "script-src-elem")
}

/// Does any directive from index `i` on control script loading?
fn has_script_src_from(ds: &Vec<Vec<char>>, i: usize) -> (r: bool)
    requires
        i <= ds@.len(),
    ensures
        r == has_script_src(views_of(ds@).skip(i as int)),
    decreases ds@.len() - i,
{
    let ghost vs = views_of(ds@);
    if i == ds.len() {
        proof {
            assert(vs.skip(i as int) =~= Seq::<Seq<char>>::empty());
        }
        return false;
    }
    proof {
        assert(vs.skip(i as int)[0] == vs[i as int]);
        assert(vs.skip(i as int).drop_first() =~= vs.skip(i + 1));
    }
    if is_script_src_exec(&ds[i]) {
        true
    } else {
        has_script_src_from(ds, i + 1)
    }
}

/// Does this source value survive sanitisation?
fn keeps_token_exec(t: &Vec<char>) -> (r: bool)
    ensures
        r == keeps_token(t@),
{
    !starts_with_lower(t, "'sha256-") && !starts_with_lower(t, "'sha384-")
        && !starts_with_lower(t, "'sha512-") && !starts_with_lower(t, "'nonce-") && !eq_lower(
        t,
        "'strict-dynamic'",
    )
}

/// Keeping one more token.
proof fn lemma_kept_push(s: Seq<Seq<char>>, x: Seq<char>)
    ensures
        s.push(x).filter(|t: Seq<char>| keeps_token(t)) == if keeps_token(x) {
            s.filter(|t: Seq<char>| keeps_token(t)).push(x)
        } else {
            s.filter(|t: Seq<char>| keeps_token(t))
        },
{
    reveal_with_fuel(Seq::filter, 2);
    assert(s.push(x).drop_last() =~= s);
    assert(s.push(x).last() == x);
}

/// The values of the directive that survive sanitisation.
fn kept_tokens_exec(d: &Vec<char>, nl: usize) -> (r: Vec<Vec<char>>)
    requires
        nl as int == find_space(d@),
    ensures
        views_of(r@) == kept_tokens(d@),
{
    proof {
        lemma_find_space(d@);
    }
    let values = copy_range(d, nl, d.len());
    proof {
        assert(values@ =~= d@.skip(nl as int));
    }
    let toks = tokens_exec(values);
    let ghost all = tokens(d@.skip(find_space(d@)));
    let mut r: Vec<Vec<char>> = Vec::new();
    proof {
        reveal_with_fuel(Seq::filter, 2);
        assert(all.take(0) =~= Seq::<Seq<char>>::empty());
    }
    let n = toks.len();
    let mut i: usize = 0;
    while i < n
        invariant
            n == toks@.len(),
            0 <= i <= n,
            all == views_of(toks@),
            views_of(r@) == all.take(i as int).filter(|t: Seq<char>| keeps_token(t)),
        decreases n - i,
    {
        proof {
            assert(all.take(i + 1) =~= all.take(i as int).push(all[i as int]));
            lemma_kept_push(all.take(i as int), all[i as int]);
        }
        let ghost before = views_of(r@);
        if keeps_token_exec(&toks[i]) {
            let copied = copy_vec(&toks[i]);
            r.push(copied);
            proof {
                assert(views_of(r@) =~= before.push(all[i as int]));
            }
        }
        i = i + 1;
    }
    proof {
        assert(all.take(n as int) =~= all);
    }
    r
}

/// One directive sanitised; `None` when it is to be omitted.
fn sanitize_directive_exec(d: &Vec<char>, has_script: bool) -> (r: Option<Vec<char>>)
    ensures
        match r {
            Some(out) => sanitize_directive(d@, has_script) == Some(out@),
            None => sanitize_directive(d@, has_script) is None,
        },
{
    proof {
        lemma_find_space(d@);
    }
    let nl = find_space_exec(d);
    if prefix_eq_lower(d, nl, "report-uri") || prefix_eq_lower(d, nl, "report-to") {
        return None;
    }
    let is_script = prefix_eq_lower(d, nl, "script-src") || prefix_eq_lower(d, nl, "script-src-elem");
    let is_target = is_script || (!has_script && prefix_eq_lower(d, nl, "default-src"));
    if is_target {
        let kept = kept_tokens_exec(d, nl);
        if kept.len() == 0 {
            None
        } else {
            let mut out = copy_range(d, 0, nl);
            out.push(' ');
            let joined = join_from(&kept, 0, &space_vec());
            extend_vec(&mut out, &joined);
            proof {
                reveal_strlit(" ");
                assert(views_of(kept@).skip(0) =~= views_of(kept@));
                assert(out@ =~= directive_name(d@) + " "@ + join(kept_tokens(d@), " "@));
            }
            Some(out)
        }
    } else {
        Some(copy_vec(d))
    }
}

/// A one-character vector holding a space.
fn space_vec() -> (r: Vec<char>)
    ensures
        r@ == " "@,
{
    proof {
        reveal_strlit(" ");
    }
    let mut v: Vec<char> = Vec::new();
    v.push(' ');
    proof {
        assert(v@ =~= " "@);
    }
    v
}

/// Sanitises the directives from index `i` on, dropping omissions.
fn sanitized_exec_from(ds: &Vec<Vec<char>>, i: usize, has_script: bool) -> (r: Vec<Vec<char>>)
    requires
        i <= ds@.len(),
    ensures
        views_of(r@) == sanitized_of(views_of(ds@).skip(i as int), has_script),
    decreases ds@.len() - i,
{
    let ghost vs = views_of(ds@);
    if i == ds.len() {
        let r: Vec<Vec<char>> = Vec::new();
        proof {
            assert(vs.skip(i as int) =~= Seq::<Seq<char>>::empty());
            assert(views_of(r@) =~= sanitized_of(vs.skip(i as int), has_script));
        }
        return r;
    }
    proof {
        assert(vs.skip(i as int)[0] == vs[i as int]);
        assert(vs.skip(i as int).drop_first() =~= vs.skip(i + 1));
    }
    let head = sanitize_directive_exec(&ds[i], has_script);
    let mut rest = sanitized_exec_from(ds, i + 1, has_script);
    match head {
        Some(out) => {
            rest.insert(0, out);
            proof {
                assert(views_of(rest@) =~= sanitized_of(vs.skip(i as int), has_script));
            }
        }
        None => {
            proof {
                assert(views_of(rest@) =~= sanitized_of(vs.skip(i as int), has_script));
            }
        }
    }
    rest
}

/// Sanitises a whole `Content-Security-Policy` value. Returns `None`
/// when every directive was stripped, so the caller omits the header.
pub fn sanitize_csp(csp_value: &str) -> (r: Option<String>)
    ensures
        match r {
            Some(out) => sanitize_spec(csp_value@) == Some(out@),
            None => sanitize_spec(csp_value@) is None,
        },
{
    let cs = str_chars(csp_value);
    let segs = split_on_exec(cs, ';');
    let ds = trimmed_exec(segs);
    let has_script = has_script_src_from(&ds, 0);
    proof {
        assert(views_of(ds@).skip(0) =~= views_of(ds@));
    }
    let outs = sanitized_exec_from(&ds, 0, has_script);
    if outs.len() == 0 {
        None
    } else {
        let sep = separator_vec();
        let joined = join_from(&outs, 0, &sep);
        proof {
            assert(views_of(outs@).skip(0) =~= views_of(outs@));
        }
        Some(chars_to_string(&joined))
    }
}

/// A well-formed directive, as `directives_of` produces them: non-empty,
/// trimmed at both ends, and free of the `;` separator.
pub open spec fn wf_directive(d: Seq<char>) -> bool {
    d.len() > 0 && !is_space(d[0]) && !is_space(d.last()) && forall|j: int|
        0 <= j < d.len() ==> d[j] != ';'
}

/// Every directive a policy parses to is well formed.
pub proof fn lemma_directives_wf(csp: Seq<char>)
    ensures
        forall|i: int|
            0 <= i < directives_of(csp).len() ==> wf_directive(#[trigger] directives_of(csp)[i]),
{
    crate::chars::lemma_split_on_chars(csp, ';');
    lemma_trimmed_of_wf(split_on(csp, ';'));
}

/// Trimming well-behaved segments yields well-formed directives.
proof fn lemma_trimmed_of_wf(segs: Seq<Seq<char>>)
    requires
        forall|i: int, j: int|
            0 <= i < segs.len() && 0 <= j < segs[i].len() ==> (#[trigger] segs[i][j]) != ';',
    ensures
        forall|i: int|
            0 <= i < trimmed_of(segs).len() ==> wf_directive(#[trigger] trimmed_of(segs)[i]),
    decreases segs.len(),
{
    if segs.len() > 0 {
        assert forall|i: int, j: int|
            0 <= i < segs.drop_first().len() && 0 <= j < segs.drop_first()[i].len() implies (
        #[trigger] segs.drop_first()[i][j]) != ';' by {
            assert(segs.drop_first()[i] == segs[i + 1]);
        }
        lemma_trimmed_of_wf(segs.drop_first());
        let t = trim(segs[0]);
        crate::chars::lemma_trim_shape(segs[0]);
        if t.len() > 0 {
            assert forall|j: int| 0 <= j < t.len() implies t[j] != ';' by {
                assert(t.contains(t[j]));
                assert(segs[0].contains(t[j]));
                let k = choose|k: int| 0 <= k < segs[0].len() && segs[0][k] == t[j];
                assert(segs[0][k] != ';');
            }
            assert(wf_directive(t));
            assert forall|i: int| 0 <= i < trimmed_of(segs).len() implies wf_directive(
                #[trigger] trimmed_of(segs)[i],
            ) by {
                if i == 0 {
                    assert(trimmed_of(segs)[0] == t);
                } else {
                    assert(trimmed_of(segs)[i] == trimmed_of(segs.drop_first())[i - 1]);
                }
            }
        } else {
            assert forall|i: int| 0 <= i < trimmed_of(segs).len() implies wf_directive(
                #[trigger] trimmed_of(segs)[i],
            ) by {
                assert(trimmed_of(segs)[i] == trimmed_of(segs.drop_first())[i]);
            }
        }
    }
}

/// Joining well-formed directives with `"; "` and parsing the result
/// gives the directives back.
pub proof fn lemma_directives_of_join(outs: Seq<Seq<char>>)
    requires
        forall|i: int| 0 <= i < outs.len() ==> wf_directive(#[trigger] outs[i]),
    ensures
        directives_of(join(outs, "; "@)) == outs,
    decreases outs.len(),
{
    reveal_strlit("; ");
    if outs.len() == 0 {
        assert(join(outs, "; "@) =~= Seq::<char>::empty());
        let e = Seq::<char>::empty();
        assert(split_on(e, ';') =~~= seq![e]);
        assert(trim(e) =~= e);
        assert(seq![e].drop_first() =~= Seq::<Seq<char>>::empty());
        assert(trimmed_of(Seq::<Seq<char>>::empty()) =~~= Seq::<Seq<char>>::empty());
        assert(trimmed_of(seq![e]) =~~= Seq::<Seq<char>>::empty());
        assert(directives_of(join(outs, "; "@)) =~~= outs);
    } else if outs.len() == 1 {
        let p = outs[0];
        assert(wf_directive(p));
        crate::chars::lemma_split_on_free(p, ';');
        crate::chars::lemma_trim_fixpoint(p);
        assert(seq![p].drop_first() =~= Seq::<Seq<char>>::empty());
        assert(trimmed_of(Seq::<Seq<char>>::empty()) =~~= Seq::<Seq<char>>::empty());
        assert(trimmed_of(seq![p]) =~~= seq![p]);
        assert(directives_of(join(outs, "; "@)) =~~= outs);
    } else {
        assert forall|i: int| 0 <= i < outs.drop_first().len() implies wf_directive(
            #[trigger] outs.drop_first()[i],
        ) by {
            assert(outs.drop_first()[i] == outs[i + 1]);
        }
        lemma_directives_of_join(outs.drop_first());
        let p = outs[0];
        assert(wf_directive(p));
        let x = seq![' '] + join(outs.drop_first(), "; "@);
        assert(join(outs, "; "@) =~= p + seq![';'] + x);
        crate::chars::lemma_split_on_concat(p, x, ';');
        let r = split_on(join(outs.drop_first(), "; "@), ';');
        crate::chars::lemma_split_on_len(join(outs.drop_first(), "; "@), ';');
        assert(x[0] == ' ');
        assert(x.drop_first() =~= join(outs.drop_first(), "; "@));
        assert(split_on(x, ';') == seq![seq![' '] + r[0]] + r.drop_first());
        crate::chars::lemma_trim_leading_space(r[0], ' ');
        assert(seq![' '] + r[0] == split_on(x, ';')[0]);
        let sx = split_on(x, ';');
        assert(trimmed_of(sx) =~~= trimmed_of(r)) by {
            assert(sx.drop_first() =~= r.drop_first());
            assert(trim(sx[0]) == trim(r[0]));
            assert(r =~= seq![r[0]] + r.drop_first());
            assert(trimmed_of(r) == if trim(r[0]).len() > 0 {
                seq![trim(r[0])] + trimmed_of(r.drop_first())
            } else {
                trimmed_of(r.drop_first())
            });
        }
        crate::chars::lemma_trim_fixpoint(p);
        let whole = seq![p] + sx;
        assert(split_on(join(outs, "; "@), ';') == whole);
        assert(whole[0] == p);
        assert(whole.drop_first() =~= sx);
        assert(trimmed_of(whole) == seq![trim(p)] + trimmed_of(sx));
        assert(directives_of(join(outs, "; "@)) =~~= seq![p] + trimmed_of(r));
        assert(directives_of(join(outs, "; "@)) =~~= outs);
    }
}

/// What one sanitised directive looks like: well formed, same name.
proof fn lemma_sanitize_directive_shape(d: Seq<char>, has_script: bool)
    requires
        wf_directive(d),
    ensures
        match sanitize_directive(d, has_script) {
            Some(o) => wf_directive(o) && directive_name(o) == directive_name(d),
            None => true,
        },
{
    reveal_strlit(" ");
    lemma_find_space(d);
    let fs = find_space(d);
    if is_report_directive(d) {
    } else if is_script_src_directive(d) || (!has_script && is_default_src_directive(d)) {
        let kept = kept_tokens(d);
        if kept.len() > 0 {
            lemma_kept_shape(d);
            let o = directive_name(d) + " "@ + join(kept, " "@);
            crate::chars::lemma_join_chars(kept, " "@);
            assert(fs > 0) by {
                if fs == 0 {
                    assert(is_space(d[0]));
                }
            }
            let name = directive_name(d);
            assert(name.len() == fs);
            assert(o[0] == name[0]);
            assert(name[0] == d[0]);
            assert(" "@ =~= seq![' ']);
            assert(o =~= name + seq![' '] + join(kept, " "@));
            assert(o.last() == join(kept, " "@).last());
            assert(join(kept, " "@).last() == kept.last().last());
            assert(!is_space(o.last())) by {
                assert(kept[kept.len() - 1] == kept.last());
            }
            assert forall|j: int| 0 <= j < o.len() implies o[j] != ';' by {
                if j < fs {
                    assert(o[j] == d[j]);
                } else if j == fs {
                    assert(o[j] == ' ');
                } else {
                    let jj = j - fs - 1;
                    assert(o[j] == join(kept, " "@)[jj]);
                    if " "@.contains(join(kept, " "@)[jj]) {
                        assert(" "@[0] == ' ');
                        let m = choose|m: int| 0 <= m < " "@.len() && " "@[m] == o[j];
                        assert(o[j] == ' ');
                    } else {
                        let i = choose|i: int|
                            0 <= i < kept.len() && (#[trigger] kept[i]).contains(
                                join(kept, " "@)[jj],
                            );
                        assert(d.contains(o[j]));
                        let k = choose|k: int| 0 <= k < d.len() && d[k] == o[j];
                        assert(d[k] != ';');
                    }
                }
            }
            assert(wf_directive(o));
            lemma_rebuilt_name(d, o);
        }
    } else {
    }
}

/// The tokens a directive keeps: non-empty, space-free, made of the
/// directive's own characters.
proof fn lemma_kept_shape(d: Seq<char>)
    ensures
        forall|i: int|
            0 <= i < kept_tokens(d).len() ==> (#[trigger] kept_tokens(d)[i]).len() > 0,
        forall|i: int, j: int|
            0 <= i < kept_tokens(d).len() && 0 <= j < kept_tokens(d)[i].len() ==> !is_space(
                #[trigger] kept_tokens(d)[i][j],
            ) && d.contains(kept_tokens(d)[i][j]),
{
    let fs = find_space(d);
    lemma_find_space(d);
    let vals = d.skip(fs);
    crate::chars::lemma_tokens_chars(vals);
    let toks = tokens(vals);
    let kept = kept_tokens(d);
    assert forall|i: int| 0 <= i < kept.len() implies (#[trigger] kept[i]).len() > 0 by {
        crate::chars::lemma_filter_element_of(toks, |t: Seq<char>| keeps_token(t), i);
        let k = choose|k: int| 0 <= k < toks.len() && toks[k] == kept[i];
    }
    assert forall|i: int, j: int|
        0 <= i < kept.len() && 0 <= j < kept[i].len() implies !is_space(#[trigger] kept[i][j])
        && d.contains(kept[i][j]) by {
        crate::chars::lemma_filter_element_of(toks, |t: Seq<char>| keeps_token(t), i);
        let k = choose|k: int| 0 <= k < toks.len() && toks[k] == kept[i];
        assert(!is_space(toks[k][j]) && vals.contains(toks[k][j]));
        let m = choose|m: int| 0 <= m < vals.len() && vals[m] == kept[i][j];
        assert(d[m + fs] == kept[i][j]);
    }
}

/// A rebuilt directive carries the name of its source.
proof fn lemma_rebuilt_name(d: Seq<char>, o: Seq<char>)
    requires
        wf_directive(d),
        kept_tokens(d).len() > 0,
        o == directive_name(d) + " "@ + join(kept_tokens(d), " "@),
    ensures
        directive_name(o) == directive_name(d),
        o.skip(find_space(o)) == seq![' '] + join(kept_tokens(d), " "@),
{
    reveal_strlit(" ");
    lemma_find_space(d);
    let fs = find_space(d);
    let name = directive_name(d);
    assert(" "@ =~= seq![' ']);
    assert(o =~= name + seq![' '] + join(kept_tokens(d), " "@));
    assert forall|j: int| 0 <= j < fs implies !is_space(o[j]) by {
        assert(o[j] == d[j]);
    }
    assert(o[fs as int] == ' ');
    crate::chars::lemma_find_space_step(o, fs);
    assert(directive_name(o) =~= name);
    assert(o.skip(fs) =~= seq![' '] + join(kept_tokens(d), " "@));
}

/// A sanitised directive sanitises to itself.
proof fn lemma_sanitize_directive_fixpoint(d: Seq<char>, has_script: bool)
    requires
        wf_directive(d),
    ensures
        match sanitize_directive(d, has_script) {
            Some(o) => sanitize_directive(o, has_script) == Some(o),
            None => true,
        },
{
    reveal_strlit(" ");
    if is_report_directive(d) {
    } else if is_script_src_directive(d) || (!has_script && is_default_src_directive(d)) {
        let kept = kept_tokens(d);
        if kept.len() > 0 {
            lemma_kept_shape(d);
            lemma_sanitize_directive_shape(d, has_script);
            let o = directive_name(d) + " "@ + join(kept, " "@);
            lemma_rebuilt_name(d, o);
            crate::chars::lemma_tokens_leading_space(join(kept, " "@));
            crate::chars::lemma_tokens_of_join(kept);
            assert(tokens(o.skip(find_space(o))) == kept);
            assert forall|i: int| 0 <= i < kept.len() implies keeps_token(#[trigger] kept[i]) by {
                tokens(d.skip(find_space(d))).lemma_filter_pred(
                    |t: Seq<char>| keeps_token(t),
                    i,
                );
            }
            crate::chars::lemma_filter_all(kept, |t: Seq<char>| keeps_token(t));
            assert(kept_tokens(o) == kept);
        }
    } else {
    }
}

/// Sanitised directives are well formed.
proof fn lemma_sanitized_wf(ds: Seq<Seq<char>>, has_script: bool)
    requires
        forall|i: int| 0 <= i < ds.len() ==> wf_directive(#[trigger] ds[i]),
    ensures
        forall|i: int|
            0 <= i < sanitized_of(ds, has_script).len() ==> wf_directive(
                #[trigger] sanitized_of(ds, has_script)[i],
            ),
    decreases ds.len(),
{
    if ds.len() > 0 {
        assert forall|i: int| 0 <= i < ds.drop_first().len() implies wf_directive(
            #[trigger] ds.drop_first()[i],
        ) by {
            assert(ds.drop_first()[i] == ds[i + 1]);
        }
        lemma_sanitized_wf(ds.drop_first(), has_script);
        lemma_sanitize_directive_shape(ds[0], has_script);
        let rest = sanitized_of(ds.drop_first(), has_script);
        match sanitize_directive(ds[0], has_script) {
            Some(o) => {
                assert forall|i: int| 0 <= i < sanitized_of(ds, has_script).len() implies
                    wf_directive(#[trigger] sanitized_of(ds, has_script)[i]) by {
                    if i == 0 {
                        assert(sanitized_of(ds, has_script)[0] == o);
                    } else {
                        assert(sanitized_of(ds, has_script)[i] == rest[i - 1]);
                    }
                }
            }
            None => {}
        }
    }
}

/// Sanitisation never makes a directive script-loading that was not.
proof fn lemma_sanitized_no_new_script(ds: Seq<Seq<char>>, has_script: bool)
    requires
        forall|i: int| 0 <= i < ds.len() ==> wf_directive(#[trigger] ds[i]),
    ensures
        has_script_src(sanitized_of(ds, has_script)) ==> has_script_src(ds),
    decreases ds.len(),
{
    if ds.len() > 0 {
        assert forall|i: int| 0 <= i < ds.drop_first().len() implies wf_directive(
            #[trigger] ds.drop_first()[i],
        ) by {
            assert(ds.drop_first()[i] == ds[i + 1]);
        }
        lemma_sanitized_no_new_script(ds.drop_first(), has_script);
        lemma_sanitize_directive_shape(ds[0], has_script);
        let rest = sanitized_of(ds.drop_first(), has_script);
        match sanitize_directive(ds[0], has_script) {
            Some(o) => {
                assert((seq![o] + rest)[0] == o);
                assert((seq![o] + rest).drop_first() =~= rest);
                if is_script_src_directive(ds[0]) {
                    assert(is_script_src_directive(o));
                }
            }
            None => {}
        }
    }
}

/// Sanitising a sanitised directive list changes nothing.
proof fn lemma_sanitized_fixpoint(ds: Seq<Seq<char>>, has_script: bool)
    requires
        forall|i: int| 0 <= i < ds.len() ==> wf_directive(#[trigger] ds[i]),
    ensures
        sanitized_of(sanitized_of(ds, has_script), has_script) == sanitized_of(ds, has_script),
    decreases ds.len(),
{
    if ds.len() > 0 {
        assert forall|i: int| 0 <= i < ds.drop_first().len() implies wf_directive(
            #[trigger] ds.drop_first()[i],
        ) by {
            assert(ds.drop_first()[i] == ds[i + 1]);
        }
        lemma_sanitized_fixpoint(ds.drop_first(), has_script);
        lemma_sanitize_directive_shape(ds[0], has_script);
        lemma_sanitize_directive_fixpoint(ds[0], has_script);
        let rest = sanitized_of(ds.drop_first(), has_script);
        match sanitize_directive(ds[0], has_script) {
            Some(o) => {
                assert((seq![o] + rest)[0] == o);
                assert((seq![o] + rest).drop_first() =~= rest);
                assert(sanitized_of(seq![o] + rest, has_script) =~~= seq![o] + sanitized_of(
                    rest,
                    has_script,
                ));
            }
            None => {}
        }
    }
}

/// Sanitisation is stable under repetition: sanitising a sanitised
/// policy gives it back, provided sanitisation left a script-loading
/// directive in place whenever the policy had one. (Without that
/// proviso a surviving `default-src` can be stripped only on the second
/// pass, once every `script-src` is gone.)
pub proof fn lemma_sanitize_idempotent(csp: Seq<char>, out: Seq<char>)
    requires
        sanitize_spec(csp) == Some(out),
        has_script_src(directives_of(csp)) ==> has_script_src(directives_of(out)),
    ensures
        sanitize_spec(out) == Some(out),
{
    let ds = directives_of(csp);
    let hs = has_script_src(ds);
    let outs = sanitized_of(ds, hs);
    lemma_directives_wf(csp);
    lemma_sanitized_wf(ds, hs);
    lemma_directives_of_join(outs);
    assert(directives_of(out) == outs);
    lemma_sanitized_no_new_script(ds, hs);
    assert(has_script_src(outs) == hs);
    lemma_sanitized_fixpoint(ds, hs);
    assert(sanitized_of(outs, hs) == outs);
}

/// A directive that sanitisation does not touch in substance: not a
/// report directive, and if it governs script loading, every one of its
/// values survives and at least one value is present.
pub open spec fn clean_directive(d: Seq<char>) -> bool {
    !is_report_directive(d) && ((is_script_src_directive(d) || is_default_src_directive(d))
        ==> tokens(d.skip(find_space(d))).len() > 0 && forall|i: int|
        0 <= i < tokens(d.skip(find_space(d))).len() ==> keeps_token(
            #[trigger] tokens(d.skip(find_space(d)))[i],
        ))
}

/// On clean directives sanitisation only normalises whitespace: every
/// directive survives, with its name and its values unchanged.
proof fn lemma_sanitized_clean(ds: Seq<Seq<char>>, has_script: bool)
    requires
        forall|i: int| 0 <= i < ds.len() ==> wf_directive(#[trigger] ds[i]),
        forall|i: int| 0 <= i < ds.len() ==> clean_directive(#[trigger] ds[i]),
    ensures
        sanitized_of(ds, has_script).len() == ds.len(),
        forall|i: int|
            0 <= i < ds.len() ==> directive_name(#[trigger] sanitized_of(ds, has_script)[i])
                == directive_name(ds[i]),
        forall|i: int|
            0 <= i < ds.len() ==> tokens(
                (#[trigger] sanitized_of(ds, has_script)[i]).skip(
                    find_space(sanitized_of(ds, has_script)[i]),
                ),
            ) == tokens(ds[i].skip(find_space(ds[i]))),
    decreases ds.len(),
{
    if ds.len() > 0 {
        assert forall|i: int| 0 <= i < ds.drop_first().len() implies wf_directive(
            #[trigger] ds.drop_first()[i],
        ) && clean_directive(ds.drop_first()[i]) by {
            assert(ds.drop_first()[i] == ds[i + 1]);
        }
        lemma_sanitized_clean(ds.drop_first(), has_script);
        let d = ds[0];
        assert(wf_directive(d) && clean_directive(d));
        lemma_sanitize_directive_clean(d, has_script);
        let o = sanitize_directive(d, has_script)->Some_0;
        let rest = sanitized_of(ds.drop_first(), has_script);
        assert(sanitized_of(ds, has_script) == seq![o] + rest);
        assert forall|i: int| 0 <= i < ds.len() implies directive_name(
            #[trigger] sanitized_of(ds, has_script)[i],
        ) == directive_name(ds[i]) && tokens(
            sanitized_of(ds, has_script)[i].skip(find_space(sanitized_of(ds, has_script)[i])),
        ) == tokens(ds[i].skip(find_space(ds[i]))) by {
            if i == 0 {
                assert(sanitized_of(ds, has_script)[0] == o);
            } else {
                assert(sanitized_of(ds, has_script)[i] == rest[i - 1]);
                assert(ds.drop_first()[i - 1] == ds[i]);
            }
        }
    }
}

/// One clean directive survives sanitisation with name and values kept.
proof fn lemma_sanitize_directive_clean(d: Seq<char>, has_script: bool)
    requires
        wf_directive(d),
        clean_directive(d),
    ensures
        sanitize_directive(d, has_script) is Some,
        directive_name(sanitize_directive(d, has_script)->Some_0) == directive_name(d),
        tokens(
            (sanitize_directive(d, has_script)->Some_0).skip(
                find_space(sanitize_directive(d, has_script)->Some_0),
            ),
        ) == tokens(d.skip(find_space(d))),
{
    reveal_strlit(" ");
    if is_script_src_directive(d) || (!has_script && is_default_src_directive(d)) {
        let toks = tokens(d.skip(find_space(d)));
        crate::chars::lemma_filter_all(toks, |t: Seq<char>| keeps_token(t));
        assert(kept_tokens(d) == toks);
        let o = directive_name(d) + " "@ + join(toks, " "@);
        lemma_kept_shape(d);
        lemma_rebuilt_name(d, o);
        crate::chars::lemma_tokens_leading_space(join(toks, " "@));
        crate::chars::lemma_tokens_of_join(toks);
        assert(tokens(o.skip(find_space(o))) == toks);
    }
}

/// On a policy whose directives are all clean, sanitisation returns the
/// policy with only its whitespace normalised: the same directives, in
/// order, each with its name and values unchanged.
pub proof fn lemma_sanitize_clean(csp: Seq<char>)
    requires
        directives_of(csp).len() > 0,
        forall|i: int|
            0 <= i < directives_of(csp).len() ==> clean_directive(#[trigger] directives_of(csp)[i]),
    ensures
        sanitize_spec(csp) is Some,
        directives_of(sanitize_spec(csp)->Some_0).len() == directives_of(csp).len(),
        forall|i: int|
            0 <= i < directives_of(csp).len() ==> directive_name(
                #[trigger] directives_of(sanitize_spec(csp)->Some_0)[i],
            ) == directive_name(directives_of(csp)[i]),
        forall|i: int|
            0 <= i < directives_of(csp).len() ==> tokens(
                (#[trigger] directives_of(sanitize_spec(csp)->Some_0)[i]).skip(
                    find_space(directives_of(sanitize_spec(csp)->Some_0)[i]),
                ),
            ) == tokens(directives_of(csp)[i].skip(find_space(directives_of(csp)[i]))),
{
    let ds = directives_of(csp);
    let hs = has_script_src(ds);
    lemma_directives_wf(csp);
    lemma_sanitized_clean(ds, hs);
    let outs = sanitized_of(ds, hs);
    lemma_sanitized_wf(ds, hs);
    lemma_directives_of_join(outs);
    assert(directives_of(sanitize_spec(csp)->Some_0) == outs);
}

/// A two-character vector holding `"; "`.
fn separator_vec() -> (r: Vec<char>)
    ensures
        r@ == "; "@,
{
    proof {
        reveal_strlit("; ");
    }
    let mut v: Vec<char> = Vec::new();
    v.push(';');
    v.push(' ');
    proof {
        assert(v@ =~= "; "@);
    }
    v
}

} // verus!
