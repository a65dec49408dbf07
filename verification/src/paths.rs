use vstd::prelude::*;
use crate::text::{chars_of, concat, string_from_range};

verus! {

/// `base` joined with `rel` the way `Path::join` does it on Unix: an absolute `rel`
/// replaces `base`, otherwise a `/` separates them unless `base` is empty or already ends in one.
pub open spec fn joined(base: Seq<char>, rel: Seq<char>) -> Seq<char> {
    if rel.len() > 0 && rel[0] == '/' {
        rel
    } else if base.len() > 0 && base.last() != '/' {
        base + seq!['/'] + rel
    } else {
        base + rel
    }
}

/// `Path::new(base).join(rel)`, as a string.
pub fn join_path(base: &str, rel: &str) -> (r: String)
    ensures
        r@ == joined(base@, rel@),
{
    let b = chars_of(base);
    let rc = chars_of(rel);
    if rc.len() > 0 && rc[0] == '/' {
        return String::from_str(rel);
    }
    if b.len() > 0 && b[b.len() - 1] != '/' {
        let with_sep = concat(base, "/");
        proof {
            reveal_strlit("/");
            assert(with_sep@ =~= base@ + seq!['/']);
        }
        concat(with_sep.as_str(), rel)
    } else {
        concat(base, rel)
    }
}

/// Index of the last `'.'` in `s`, or -1 when there is none.
pub open spec fn last_dot(s: Seq<char>) -> int
    decreases s.len(),
{
    if s.len() == 0 {
        -1
    } else if s.last() == '.' {
        s.len() - 1
    } else {
        last_dot(s.drop_last())
    }
}

proof fn lemma_last_dot(s: Seq<char>)
    ensures
        -1 <= last_dot(s) < s.len(),
        last_dot(s) >= 0 ==> s[last_dot(s)] == '.',
        forall|k: int| last_dot(s) < k < s.len() ==> s[k] != '.',
    decreases s.len(),
{
    if s.len() > 0 && s.last() != '.' {
        let t = s.drop_last();
        lemma_last_dot(t);
        assert forall|k: int| last_dot(s) < k < s.len() implies s[k] != '.' by {
            if k < s.len() - 1 {
                assert(s[k] == t[k]);
            }
        }
    }
}

/// The stem of a file name, as `Path::file_stem` gives it: the name without its last
/// extension; a name with no dot but at its start, and `..`, are their own stem.
pub open spec fn stem_of(name: Seq<char>) -> Seq<char> {
    if name == seq!['.', '.'] {
        name
    } else if last_dot(name) <= 0 {
        name
    } else {
        name.take(last_dot(name))
    }
}

/// The stem of the file name `name` (`Path::file_stem`).
pub fn file_stem(name: &str) -> (r: String)
    ensures
        r@ == stem_of(name@),
{
    let c = chars_of(name);
    let n = c.len();
    if n == 2 && c[0] == '.' && c[1] == '.' {
        assert(c@ =~= seq!['.', '.']);
        return String::from_str(name);
    }
    let mut k: usize = n;
    while k > 0 && c[k - 1] != '.'
        invariant
            k <= n == c@.len(),
            forall|j: int| k <= j < n ==> c@[j] != '.',
        decreases k,
    {
        k = k - 1;
    }
    proof {
        lemma_last_dot(c@);
        let d = last_dot(c@);
        if d >= k {
            assert(c@[d] == '.');
        }
        if k > 0 && d < k - 1 {
            assert(c@[k - 1] == '.');
        }
        assert(d == k - 1);
        if n == 2 {
            assert(c@ != seq!['.', '.']) by {
                if c@ == seq!['.', '.'] {
                    assert(c@[0] == '.' && c@[1] == '.');
                }
            }
        }
    }
    if k <= 1 {
        String::from_str(name)
    } else {
        string_from_range(&c, 0, k - 1)
    }
}

/// The stem is the start of the name; when the name has an extension, the name is the stem,
/// a dot and the extension.
pub proof fn lemma_stem_is_prefix(name: Seq<char>)
    ensures
        stem_of(name).len() <= name.len(),
        name.take(stem_of(name).len() as int) == stem_of(name),
        name != seq!['.', '.'] && last_dot(name) > 0 ==> name == stem_of(name) + seq!['.'] + name.skip(
            last_dot(name) + 1,
        ),
{
    lemma_last_dot(name);
    if name != seq!['.', '.'] && last_dot(name) > 0 {
        assert(name =~= stem_of(name) + seq!['.'] + name.skip(last_dot(name) + 1));
    } else {
        assert(name.take(name.len() as int) =~= name);
    }
}

/// Joining a relative name to a base without a trailing `/` puts one `/` between them.
pub proof fn lemma_join_relative(base: Seq<char>, rel: Seq<char>)
    requires
        base.len() > 0,
        base.last() != '/',
        rel.len() == 0 || rel[0] != '/',
    ensures
        joined(base, rel) == base + seq!['/'] + rel,
{
}

/// A post whose file name does not start with `/` is written to
/// `out/posts/<stem>.html`.
pub proof fn lemma_post_page_under_posts(name: Seq<char>)
    requires
        name.len() == 0 || name[0] != '/',
    ensures
        joined("out/posts"@, stem_of(name) + ".html"@) == "out/posts/"@ + stem_of(name) + ".html"@,
{
    reveal_strlit("out/posts");
    reveal_strlit("out/posts/");
    reveal_strlit(".html");
    lemma_stem_is_prefix(name);
    let page = stem_of(name) + ".html"@;
    if stem_of(name).len() > 0 {
        assert(stem_of(name)[0] == name[0]);
        assert(page[0] == stem_of(name)[0]);
    } else {
        assert(page =~= ".html"@);
    }
    assert("out/posts"@ + seq!['/'] =~= "out/posts/"@);
    assert(joined("out/posts"@, page) =~= "out/posts/"@ + stem_of(name) + ".html"@);
}

} // verus!
