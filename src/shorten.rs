use vstd::prelude::*;
use vstd::string::*;

verus! {

/// Index of the last `/` in `s`, or -1 where there is none.
pub open spec fn last_slash(s: Seq<char>) -> int
    decreases s.len(),
{
    if s.len() == 0 {
        -1
    } else if s.last() == '/' {
        s.len() - 1
    } else {
        last_slash(s.drop_last())
    }
}

/// Index of the first `/` in `s`, or -1 where there is none.
pub open spec fn first_slash(s: Seq<char>) -> int
    decreases s.len(),
{
    if s.len() == 0 {
        -1
    } else if s[0] == '/' {
        0
    } else if first_slash(s.drop_first()) < 0 {
        -1
    } else {
        first_slash(s.drop_first()) + 1
    }
}

/// The segment after the last `/` (all of `s` where it holds no `/`).
pub open spec fn last_segment(s: Seq<char>) -> Seq<char> {
    s.subrange(last_slash(s) + 1, s.len() as int)
}

/// `s` without its first `/`-delimited segment; `s` itself where it holds no `/`.
pub open spec fn without_first_segment(s: Seq<char>) -> Seq<char> {
    if first_slash(s) < 0 {
        s
    } else {
        s.subrange(first_slash(s) + 1, s.len() as int)
    }
}

/// Short form of an optional image reference; empty where it is absent.
pub open spec fn short_image_of(image: Option<String>) -> Seq<char> {
    match image {
        Some(s) => without_first_segment(s@),
        None => Seq::empty(),
    }
}

pub open spec fn opt_view(s: Option<String>) -> Seq<char> {
    match s {
        Some(s) => s@,
        None => Seq::empty(),
    }
}

proof fn lemma_last_slash_bounds(s: Seq<char>)
    ensures
        -1 <= last_slash(s) < s.len(),
        last_slash(s) >= 0 ==> s[last_slash(s)] == '/',
        forall|k: int| last_slash(s) < k < s.len() ==> s[k] != '/',
    decreases s.len(),
{
    if s.len() > 0 && s.last() != '/' {
        lemma_last_slash_bounds(s.drop_last());
        assert forall|k: int| last_slash(s) < k < s.len() implies s[k] != '/' by {
            if k < s.len() - 1 {
                assert(s[k] == s.drop_last()[k]);
            }
        }
    }
}

/// Moving the end of `s` back over characters other than `/` keeps its last `/`.
proof fn lemma_last_slash_prefix(s: Seq<char>, j: int)
    requires
        0 <= j <= s.len(),
        forall|k: int| j <= k < s.len() ==> s[k] != '/',
    ensures
        last_slash(s) == last_slash(s.subrange(0, j)),
    decreases s.len() - j,
{
    if j < s.len() {
        assert(s.subrange(0, s.len() - 1) =~= s.drop_last());
        assert(s.drop_last().subrange(0, j) =~= s.subrange(0, j));
        lemma_last_slash_prefix(s.drop_last(), j);
    } else {
        assert(s.subrange(0, j) =~= s);
    }
}

proof fn lemma_first_slash_scan(s: Seq<char>, j: int)
    requires
        0 <= j <= s.len(),
        forall|k: int| 0 <= k < j ==> s[k] != '/',
    ensures
        j < s.len() && s[j] == '/' ==> first_slash(s) == j,
        j == s.len() ==> first_slash(s) == -1,
    decreases j,
{
    if j > 0 {
        lemma_first_slash_scan(s.drop_first(), j - 1);
    }
}

/// Index of the last `/` in `s`, if any.
fn find_last_slash(s: &str) -> (r: Option<usize>)
    ensures
        match r {
            Some(i) => i == last_slash(s@) && i < s@.len(),
            None => last_slash(s@) == -1,
        },
{
    let n = s.unicode_len();
    let mut j: usize = n;
    while j > 0 && s.get_char(j - 1) != '/'
        invariant
            j <= n == s@.len(),
            forall|k: int| j <= k < s@.len() ==> s@[k] != '/',
        decreases j,
    {
        j = j - 1;
    }
    proof {
        lemma_last_slash_prefix(s@, j as int);
        let p = s@.subrange(0, j as int);
        if j > 0 {
            assert(p.last() == '/');
        }
    }
    if j == 0 {
        None
    } else {
        Some(j - 1)
    }
}

/// Index of the first `/` in `s`, if any.
fn find_first_slash(s: &str) -> (r: Option<usize>)
    ensures
        match r {
            Some(i) => i == first_slash(s@) && i < s@.len(),
            None => first_slash(s@) == -1,
        },
{
    let n = s.unicode_len();
    let mut j: usize = 0;
    while j < n && s.get_char(j) != '/'
        invariant
            j <= n == s@.len(),
            forall|k: int| 0 <= k < j ==> s@[k] != '/',
        decreases n - j,
    {
        j = j + 1;
    }
    proof {
        lemma_first_slash_scan(s@, j as int);
    }
    if j == n {
        None
    } else {
        Some(j)
    }
}

/// Short form of a task definition identifier: its segment after the last `/`.
pub fn task_version(task_definition_arn: &Option<String>) -> (r: String)
    ensures
        r@ == last_segment(opt_view(*task_definition_arn)),
{
    match task_definition_arn {
        Some(arn) => {
            let s = arn.as_str();
            proof {
                lemma_last_slash_bounds(s@);
            }
            let n = s.unicode_len();
            let start: usize = match find_last_slash(s) {
                Some(i) => i + 1,
                None => 0,
            };
            String::from_str(s.substring_char(start, n))
        },
        None => {
            let r = String::new();
            proof {
                assert(Seq::<char>::empty().subrange(0, 0) =~= Seq::<char>::empty());
            }
            r
        },
    }
}

/// Short form of an image reference: the first `/`-delimited segment (the registry) dropped.
pub fn short_image(image: &Option<String>) -> (r: String)
    ensures
        r@ == short_image_of(*image),
{
    match image {
        Some(im) => {
            let s = im.as_str();
            let n = s.unicode_len();
            match find_first_slash(s) {
                Some(i) => String::from_str(s.substring_char(i + 1, n)),
                None => String::from_str(s),
            }
        },
        None => String::new(),
    }
}

} // verus!
