//! Computing the files of a freshly scaffolded game: the package manifest,
//! the library roots and the regenerated game registry, all as plain text
//! filled into templates. Writing them to disk is the host's business.

use vstd::prelude::*;
use vstd::string::StrSliceExecFns;
use vstd::string::StringExecFns;

verus! {

/// Every occurrence of `pat` in `s` replaced by `sub`, scanning left to
/// right; an empty pattern replaces nothing.
pub open spec fn spec_replace_all(s: Seq<char>, pat: Seq<char>, sub: Seq<char>) -> Seq<char>
    decreases s.len(),
{
    if pat.len() == 0 || s.len() < pat.len() {
        s
    } else if s.subrange(0, pat.len() as int) == pat {
        sub + spec_replace_all(s.skip(pat.len() as int), pat, sub)
    } else {
        seq![s[0]] + spec_replace_all(s.skip(1), pat, sub)
    }
}

/// Whether `pat` occurs in `s` at position `i`.
fn matches_at(s: &str, i: usize, pat: &str, n: usize, m: usize) -> (r: bool)
    requires
        n == s@.len(),
        m == pat@.len(),
        i + m <= n,
    ensures
        r == (s@.subrange(i as int, i + pat@.len()) == pat@),
{
    let mut k: usize = 0;
    while k < m
        invariant
            0 <= k <= m,
            n == s@.len(),
            m == pat@.len(),
            i + m <= n,
            forall|j: int| 0 <= j < k ==> s@[i + j] == pat@[j],
        decreases m - k,
    {
        if s.get_char(i + k) != pat.get_char(k) {
            proof {
                assert(s@.subrange(i as int, i + pat@.len())[k as int] == s@[i + k]);
            }
            return false;
        }
        k = k + 1;
    }
    proof {
        assert(s@.subrange(i as int, i + pat@.len()) =~= pat@);
    }
    true
}

/// Every occurrence of `pat` in `s` replaced by `sub`.
pub fn replace_all(s: &str, pat: &str, sub: &str) -> (out: String)
    ensures
        out@ == spec_replace_all(s@, pat@, sub@),
{
    let n = s.unicode_len();
    let m = pat.unicode_len();
    if m == 0 {
        return s.to_owned();
    }
    let mut out = String::new();
    proof {
        assert(s@.skip(0) =~= s@);
        assert(Seq::<char>::empty() + spec_replace_all(s@, pat@, sub@) =~= spec_replace_all(
            s@,
            pat@,
            sub@,
        ));
    }
    let mut i: usize = 0;
    while i < n
        invariant
            0 <= i <= n,
            n == s@.len(),
            m == pat@.len(),
            m >= 1,
            out@ + spec_replace_all(s@.skip(i as int), pat@, sub@) == spec_replace_all(
                s@,
                pat@,
                sub@,
            ),
        decreases n - i,
    {
        let here = if n - i >= m {
            matches_at(s, i, pat, n, m)
        } else {
            false
        };
        if here {
            out.append(sub);
            proof {
                assert(s@.skip(i as int).subrange(0, pat@.len() as int) =~= s@.subrange(
                    i as int,
                    i + pat@.len(),
                ));
                assert(s@.skip(i as int).skip(pat@.len() as int) =~= s@.skip(i + m));
                assert(spec_replace_all(s@.skip(i as int), pat@, sub@) == sub@
                    + spec_replace_all(s@.skip(i + m), pat@, sub@));
                assert(out@ + spec_replace_all(s@.skip(i + m), pat@, sub@) =~= spec_replace_all(
                    s@,
                    pat@,
                    sub@,
                ));
            }
            i = i + m;
        } else {
            let piece = s.substring_char(i, i + 1);
            out.append(piece);
            proof {
                if n - i >= m {
                    assert(s@.skip(i as int).subrange(0, pat@.len() as int) =~= s@.subrange(
                        i as int,
                        i + pat@.len(),
                    ));
                }
                assert(s@.skip(i as int)[0] == s@[i as int]);
                assert(piece@ =~= seq![s@.skip(i as int)[0]]);
                assert(s@.skip(i as int).skip(1) =~= s@.skip(i + 1));
                assert(spec_replace_all(s@.skip(i as int), pat@, sub@) == seq![s@[i as int]]
                    + spec_replace_all(s@.skip(i + 1), pat@, sub@));
                assert(out@ + spec_replace_all(s@.skip(i + 1), pat@, sub@) =~= spec_replace_all(
                    s@,
                    pat@,
                    sub@,
                ));
            }
            i = i + 1;
        }
    }
    proof {
        assert(s@.skip(n as int) =~= Seq::<char>::empty());
        assert(out@ + Seq::<char>::empty() =~= out@);
    }
    out
}

/// A path from segments joined with the host's separator.
fn join_path(parts: &Vec<&str>, sep: &str) -> (out: String)
    ensures
        out@ == spec_join(parts.deep_view(), sep@),
{
    let mut out = String::new();
    let mut i: usize = 0;
    while i < parts.len()
        invariant
            0 <= i <= parts@.len(),
            out@ == spec_join(parts.deep_view().take(i as int), sep@),
            parts.deep_view().len() == parts@.len(),
        decreases parts@.len() - i,
    {
        if i > 0 {
            out.append(sep);
        }
        out.append(parts[i]);
        proof {
            lemma_join_push(parts.deep_view().take(i as int), parts.deep_view()[i as int], sep@);
            assert(parts.deep_view().take(i + 1) =~= parts.deep_view().take(i as int).push(
                parts.deep_view()[i as int],
            ));
        }
        i = i + 1;
    }
    proof {
        assert(parts.deep_view().take(parts.deep_view().len() as int) =~= parts.deep_view());
    }
    out
}

/// Segments joined with a separator.
pub open spec fn spec_join(parts: Seq<Seq<char>>, sep: Seq<char>) -> Seq<char>
    decreases parts.len(),
{
    if parts.len() == 0 {
        Seq::empty()
    } else if parts.len() == 1 {
        parts[0]
    } else {
        spec_join(parts.drop_last(), sep) + sep + parts.last()
    }
}

/// Joining distributes over a push at the end.
proof fn lemma_join_push(parts: Seq<Seq<char>>, p: Seq<char>, sep: Seq<char>)
    ensures
        spec_join(parts.push(p), sep) == if parts.len() == 0 {
            p
        } else {
            spec_join(parts, sep) + sep + p
        },
{
    assert(parts.push(p).drop_last() =~= parts);
    assert(parts.push(p).last() == p);
    if parts.len() == 0 {
        assert(spec_join(parts.push(p), sep) == p);
    }
}

/// The contents the scaffolding writes, as one (path, contents) pair per
/// file: the new package's manifest, library root, types module and game
/// module, and the regenerated registry root — all template text with the
/// game's names filled in. The host hands in the templates and writes the
/// results to disk.
pub fn populate_files(
    dir: &str,
    game: &str,
    mainclass: &str,
    sep: &str,
    cargo_template: &str,
    cargo_deps: &str,
    lib_template: &str,
    types_template: &str,
    newgame_template: &str,
    registry_template: &str,
    registry_entries: &str,
) -> (out: Vec<(String, String)>)
    ensures
        out@.len() == 5,
        out@[0].1@ == spec_replace_all(cargo_template@, "$GAMENAME"@, game@) + cargo_deps@,
        out@[1].1@ == spec_replace_all(
            spec_replace_all(lib_template@, "$GAMENAME"@, game@),
            "$CLASSNAME"@,
            mainclass@,
        ),
        out@[2].1@ == spec_replace_all(
            spec_replace_all(types_template@, "$GAMENAME"@, game@),
            "$CLASSNAME"@,
            mainclass@,
        ),
        out@[3].1@ == spec_replace_all(newgame_template@, "$CLASSNAME"@, mainclass@),
        out@[4].1@ == spec_replace_all(registry_template@, "$GAMELIST"@, registry_entries@),
        out@[0].0@ == spec_join(seq![dir@, "Cargo.toml"@], sep@),
        out@[1].0@ == spec_join(seq![dir@, "src"@, "lib.rs"@], sep@),
        out@[2].0@ == spec_join(seq![dir@, "src"@, "types.rs"@], sep@),
        out@[3].0@ == spec_join(seq![dir@, "src"@, game@], sep@) + ".rs"@,
        out@[4].0@ == spec_join(seq!["toybox"@, "src"@, "lib.rs"@], sep@),
{
    let mut out: Vec<(String, String)> = Vec::new();

    let mut cargo = replace_all(cargo_template, "$GAMENAME", game);
    cargo.append(cargo_deps);
    let parts0 = vec![dir, "Cargo.toml"];
    proof {
        assert(parts0.deep_view() =~= seq![dir@, "Cargo.toml"@]);
    }
    let p0 = join_path(&parts0, sep);
    out.push((p0, cargo));

    let lib1 = replace_all(lib_template, "$GAMENAME", game);
    let lib = replace_all(lib1.as_str(), "$CLASSNAME", mainclass);
    let parts1 = vec![dir, "src", "lib.rs"];
    proof {
        assert(parts1.deep_view() =~= seq![dir@, "src"@, "lib.rs"@]);
    }
    let p1 = join_path(&parts1, sep);
    out.push((p1, lib));

    let ty1 = replace_all(types_template, "$GAMENAME", game);
    let ty = replace_all(ty1.as_str(), "$CLASSNAME", mainclass);
    let parts2 = vec![dir, "src", "types.rs"];
    proof {
        assert(parts2.deep_view() =~= seq![dir@, "src"@, "types.rs"@]);
    }
    let p2 = join_path(&parts2, sep);
    out.push((p2, ty));

    let gm = replace_all(newgame_template, "$CLASSNAME", mainclass);
    let parts3 = vec![dir, "src", game];
    proof {
        assert(parts3.deep_view() =~= seq![dir@, "src"@, game@]);
    }
    let mut p3 = join_path(&parts3, sep);
    p3.append(".rs");
    out.push((p3, gm));

    let reg = replace_all(registry_template, "$GAMELIST", registry_entries);
    let parts4 = vec!["toybox", "src", "lib.rs"];
    proof {
        assert(parts4.deep_view() =~= seq!["toybox"@, "src"@, "lib.rs"@]);
    }
    let p4 = join_path(&parts4, sep);
    out.push((p4, reg));

    out
}

} // verus!
