//! Images that belong to a recipe, found by their file names, and their
//! check against the recipe's sections and steps.
use vstd::prelude::*;
use vstd::string::*;

use crate::text::{chars_lt, lemma_chars_lt_total, lemma_chars_lt_trans, str_eq, str_less};
use crate::paths::{file_name, path_file_name};

verus! {

/// An image of a recipe: of a step, given as section and step index (both
/// from zero), or of the whole recipe.
#[derive(Debug)]
pub struct Image {
    pub indexes: Option<(usize, usize)>,
    pub path: String,
}

/// The position of the last `.` in `s`, or -1.
pub open spec fn last_dot(s: Seq<char>) -> int
    decreases s.len(),
{
    if s.len() == 0 {
        -1
    } else if s.last() == '.' {
        s.len() - 1
    } else {
        last_dot(s.drop_last())
    }
}

/// `s` split at its `.`s from the right into at most `n` parts, the
/// rightmost first.
pub open spec fn rsplit_dots(s: Seq<char>, n: nat) -> Seq<Seq<char>>
    decreases n,
{
    if n <= 1 || last_dot(s) < 0 {
        seq![s]
    } else {
        let d = last_dot(s);
        seq![s.subrange(d + 1, s.len() as int)] + rsplit_dots(s.subrange(0, d), (n - 1) as nat)
    }
}

proof fn lemma_last_dot_bounds(s: Seq<char>)
    ensures
        -1 <= last_dot(s) < s.len(),
        last_dot(s) >= 0 ==> s[last_dot(s)] == '.',
    decreases s.len(),
{
    if s.len() > 0 && s.last() != '.' {
        lemma_last_dot_bounds(s.drop_last());
    }
}

pub open spec fn views(v: Seq<String>) -> Seq<Seq<char>> {
    v.map_values(|x: String| x@)
}

/// The position of the last `.` among the first `end` characters of `s`.
fn find_last_dot(s: &str, end: usize) -> (r: Option<usize>)
    requires
        end <= s@.len(),
    ensures
        match r {
            Some(d) => last_dot(s@.subrange(0, end as int)) == d,
            None => last_dot(s@.subrange(0, end as int)) == -1,
        },
{
    let mut j = end;
    while j > 0
        invariant
            j <= end <= s@.len(),
            last_dot(s@.subrange(0, end as int)) == last_dot(s@.subrange(0, j as int)),
        decreases j,
    {
        let c = s.get_char(j - 1);
        assert(s@.subrange(0, j as int).drop_last() == s@.subrange(0, j - 1));
        if c == '.' {
            return Some(j - 1);
        }
        j = j - 1;
    }
    None
}

/// The first `end` characters of `s` split as `rsplit_dots` does.
fn rsplit_prefix(s: &str, end: usize, n: usize) -> (r: Vec<String>)
    requires
        end <= s@.len(),
    ensures
        views(r@) == rsplit_dots(s@.subrange(0, end as int), n as nat),
    decreases n,
{
    let ghost t = s@.subrange(0, end as int);
    let dot = if n <= 1 {
        None
    } else {
        find_last_dot(s, end)
    };
    match dot {
        None => {
            let mut v: Vec<String> = Vec::new();
            v.push(String::from_str(s.substring_char(0, end)));
            assert(views(v@) =~= seq![t]);
            v
        },
        Some(d) => {
            proof {
                lemma_last_dot_bounds(t);
            }
            let mut v = rsplit_prefix(s, d, n - 1);
            let part = String::from_str(s.substring_char(d + 1, end));
            v.insert(0, part);
            assert(s@.subrange(0, d as int) == t.subrange(0, d as int));
            assert(s@.subrange(d + 1, end as int) == t.subrange(d + 1, t.len() as int));
            assert(views(v@) =~= seq![t.subrange(d + 1, t.len() as int)] + rsplit_dots(
                t.subrange(0, d as int),
                (n - 1) as nat,
            ));
            v
        },
    }
}

/// What `usize`'s `from_str` gives: an optional `+` followed by at least
/// one decimal digit, when the value fits.
pub open spec fn parsed_index(s: Seq<char>) -> Option<usize> {
    let d = if s.len() > 0 && s[0] == '+' {
        s.drop_first()
    } else {
        s
    };
    if d.len() > 0 && all_digits(d) && digits_value(d) <= usize::MAX {
        Some(digits_value(d) as usize)
    } else {
        None
    }
}

pub open spec fn all_digits(s: Seq<char>) -> bool {
    forall|i: int| 0 <= i < s.len() ==> '0' <= #[trigger] s[i] <= '9'
}

pub open spec fn digits_value(s: Seq<char>) -> int
    decreases s.len(),
{
    if s.len() == 0 {
        0
    } else {
        digits_value(s.drop_last()) * 10 + (s.last() as int - '0' as int)
    }
}

proof fn lemma_digits_prefix(s: Seq<char>, m: int)
    requires
        0 <= m <= s.len(),
        all_digits(s),
    ensures
        digits_value(s) >= digits_value(s.subrange(0, m)),
        digits_value(s) >= 0,
    decreases s.len(),
{
    if s.len() > 0 {
        let t = s.drop_last();
        assert(all_digits(t)) by {
            assert forall|i: int| 0 <= i < t.len() implies '0' <= #[trigger] t[i] <= '9' by {
                assert(t[i] == s[i]);
            }
        }
        assert('0' <= s[s.len() - 1] <= '9');
        if m == s.len() {
            assert(s.subrange(0, m) =~= s);
            lemma_digits_prefix(t, 0);
        } else {
            lemma_digits_prefix(t, m);
            assert(t.subrange(0, m) =~= s.subrange(0, m));
        }
    } else {
        assert(s.subrange(0, m) =~= s);
    }
}

/// Reads an index as `usize`'s `from_str` does: an optional `+` followed by
/// at least one decimal digit, failing on anything else or on overflow.
pub fn parse_index(s: &str) -> (r: Option<usize>)
    ensures
        r == parsed_index(s@),
{
    let n = s.unicode_len();
    let start: usize = if n > 0 && s.get_char(0) == '+' {
        1
    } else {
        0
    };
    let ghost d = s@.subrange(start as int, n as int);
    assert(d =~= (if s@.len() > 0 && s@[0] == '+' { s@.drop_first() } else { s@ }));
    if start >= n {
        return None;
    }
    let mut acc: usize = 0;
    let mut i: usize = start;
    assert(s@.subrange(start as int, start as int) =~= Seq::<char>::empty());
    while i < n
        invariant
            n == s@.len(),
            start <= i <= n,
            d == s@.subrange(start as int, n as int),
            d.len() > 0,
            parsed_index(s@) == (if all_digits(d) && digits_value(d) <= usize::MAX {
                Some(digits_value(d) as usize)
            } else {
                None::<usize>
            }),
            all_digits(s@.subrange(start as int, i as int)),
            acc as int == digits_value(s@.subrange(start as int, i as int)),
        decreases n - i,
    {
        let c = s.get_char(i);
        if c < '0' || c > '9' {
            assert(d[i - start] == c);
            return None;
        }
        let ghost p = s@.subrange(start as int, i + 1);
        assert(p.drop_last() =~= s@.subrange(start as int, i as int));
        assert(p.last() == c);
        assert(all_digits(p)) by {
            assert forall|k: int| 0 <= k < p.len() implies '0' <= #[trigger] p[k] <= '9' by {
                if k < p.len() - 1 {
                    assert(p[k] == s@.subrange(start as int, i as int)[k]);
                }
            }
        }
        let dv = (c as u32 - '0' as u32) as usize;
        assert(dv as int == c as int - '0' as int);
        let next = match acc.checked_mul(10) {
            Some(t) => t.checked_add(dv),
            None => None,
        };
        match next {
            Some(v) => {
                acc = v;
            },
            None => {
                proof {
                    if all_digits(d) {
                        lemma_digits_prefix(d, (i + 1 - start) as int);
                        assert(d.subrange(0, (i + 1 - start) as int) =~= p);
                    }
                }
                return None;
            },
        }
        i = i + 1;
    }
    assert(s@.subrange(start as int, i as int) == d);
    Some(acc)
}

/// The recognised image extensions.
pub open spec fn is_image_extension(s: Seq<char>) -> bool {
    s == seq!['j', 'p', 'e', 'g'] || s == seq!['j', 'p', 'g'] || s == seq!['p', 'n', 'g'] || s
        == seq!['h', 'e', 'i', 'c'] || s == seq!['g', 'i', 'f'] || s == seq!['w', 'e', 'b', 'p']
}

pub fn image_extension(s: &str) -> (r: bool)
    ensures
        r == is_image_extension(s@),
{
    proof {
        reveal_strlit("jpeg");
        reveal_strlit("jpg");
        reveal_strlit("png");
        reveal_strlit("heic");
        reveal_strlit("gif");
        reveal_strlit("webp");
    }
    let r = str_eq(s, "jpeg") || str_eq(s, "jpg") || str_eq(s, "png") || str_eq(s, "heic")
        || str_eq(s, "gif") || str_eq(s, "webp");
    assert("jpeg"@ =~= seq!['j', 'p', 'e', 'g']);
    assert("jpg"@ =~= seq!['j', 'p', 'g']);
    assert("png"@ =~= seq!['p', 'n', 'g']);
    assert("heic"@ =~= seq!['h', 'e', 'i', 'c']);
    assert("gif"@ =~= seq!['g', 'i', 'f']);
    assert("webp"@ =~= seq!['w', 'e', 'b', 'p']);
    r
}

/// How an image file name binds to a recipe named `recipe`: `None` when it
/// does not; else the section and step it shows, if any. The name is read
/// from the right as `name.ext`, `name.step.ext` or `name.section.step.ext`.
pub open spec fn image_indexes(recipe: Seq<char>, file: Seq<char>) -> Option<Option<(usize, usize)>> {
    let p = rsplit_dots(file, 4);
    if p.len() == 4 {
        if is_image_extension(p[0]) && p[3] == recipe && parsed_index(p[1]) is Some && parsed_index(
            p[2],
        ) is Some {
            Some(Some((parsed_index(p[2])->Some_0, parsed_index(p[1])->Some_0)))
        } else {
            None
        }
    } else if p.len() == 3 {
        if is_image_extension(p[0]) && p[2] == recipe && parsed_index(p[1]) is Some {
            Some(Some((0usize, parsed_index(p[1])->Some_0)))
        } else {
            None
        }
    } else if p.len() == 2 {
        if is_image_extension(p[0]) && p[1] == recipe {
            Some(None)
        } else {
            None
        }
    } else {
        None
    }
}

proof fn lemma_rsplit_len(s: Seq<char>, n: nat)
    ensures
        1 <= rsplit_dots(s, n).len() <= (if n == 0 { 1 } else { n }),
    decreases n,
{
    if n > 1 && last_dot(s) >= 0 {
        lemma_rsplit_len(s.subrange(0, last_dot(s)), (n - 1) as nat);
    }
}

/// Decides whether a file name shows a recipe named `recipe`, and what.
pub fn indexes_of(recipe: &str, file: &str) -> (r: Option<Option<(usize, usize)>>)
    ensures
        r == image_indexes(recipe@, file@),
{
    let parts = rsplit_prefix(file, file.unicode_len(), 4);
    proof {
        assert(file@.subrange(0, file@.len() as int) == file@);
        lemma_rsplit_len(file@, 4);
        assert(parts@.len() == views(parts@).len());
    }
    let n = parts.len();
    let ext = image_extension(parts[0].as_str());
    if n == 4 {
        let name = str_eq(parts[3].as_str(), recipe);
        let step = parse_index(parts[1].as_str());
        let section = parse_index(parts[2].as_str());
        match (section, step) {
            (Some(a), Some(b)) => if ext && name {
                Some(Some((a, b)))
            } else {
                None
            },
            _ => None,
        }
    } else if n == 3 {
        let name = str_eq(parts[2].as_str(), recipe);
        match parse_index(parts[1].as_str()) {
            Some(b) => if ext && name {
                Some(Some((0, b)))
            } else {
                None
            },
            None => None,
        }
    } else if n == 2 {
        let name = str_eq(parts[1].as_str(), recipe);
        if ext && name {
            Some(None)
        } else {
            None
        }
    } else {
        None
    }
}

/// The order of images: by their indexes, no indexes first, then by path.
pub open spec fn image_le(a: Image, b: Image) -> bool {
    match (a.indexes, b.indexes) {
        (None, Some(_)) => true,
        (Some(_), None) => false,
        (Some((s1, t1)), Some((s2, t2))) if s1 != s2 || t1 != t2 => s1 < s2 || (s1 == s2 && t1 < t2),
        _ => !chars_lt(b.path@, a.path@),
    }
}

pub open spec fn sorted_images(s: Seq<Image>) -> bool {
    forall|i: int, j: int| 0 <= i < j < s.len() ==> image_le(#[trigger] s[i], #[trigger] s[j])
}

proof fn lemma_image_le_trans(a: Image, b: Image, c: Image)
    requires
        image_le(a, b),
        image_le(b, c),
    ensures
        image_le(a, c),
{
    if a.indexes == b.indexes && b.indexes == c.indexes {
        lemma_chars_lt_total(a.path@, b.path@);
        lemma_chars_lt_total(b.path@, c.path@);
        lemma_chars_lt_total(a.path@, c.path@);
        if chars_lt(c.path@, a.path@) {
            if a.path@ != b.path@ && b.path@ != c.path@ {
                lemma_chars_lt_trans(a.path@, b.path@, c.path@);
            }
        }
    }
}

proof fn lemma_image_le_total(a: Image, b: Image)
    ensures
        image_le(a, b) || image_le(b, a),
{
    lemma_chars_lt_total(a.path@, b.path@);
}

fn image_less_eq(a: &Image, b: &Image) -> (r: bool)
    ensures
        r == image_le(*a, *b),
{
    match (a.indexes, b.indexes) {
        (None, Some(_)) => true,
        (Some(_), None) => false,
        (Some((s1, t1)), Some((s2, t2))) if s1 != s2 || t1 != t2 => s1 < s2 || (s1 == s2 && t1 < t2),
        _ => !str_less(b.path.as_str(), a.path.as_str()),
    }
}

/// Puts `x` into the sorted `v` at its place.
fn insert_sorted(v: &mut Vec<Image>, x: Image)
    requires
        sorted_images(old(v)@),
    ensures
        sorted_images(final(v)@),
        final(v)@.to_multiset() == old(v)@.to_multiset().insert(x),
{
    let mut p: usize = 0;
    while p < v.len() && image_less_eq(&v[p], &x)
        invariant
            p <= v@.len(),
            forall|k: int| 0 <= k < p ==> image_le(#[trigger] v@[k], x),
        decreases v.len() - p,
    {
        p = p + 1;
    }
    let ghost old_v = v@;
    proof {
        if p < v@.len() {
            lemma_image_le_total(v@[p as int], x);
            assert forall|k: int| p <= k < old_v.len() implies image_le(x, #[trigger] old_v[k]) by {
                if k > p {
                    lemma_image_le_trans(x, old_v[p as int], old_v[k]);
                }
            }
        }
        broadcast use vstd::seq_lib::to_multiset_insert;
    }
    v.insert(p, x);
    proof {
        old_v.insert_ensures(p as int, x);
        assert forall|i: int, j: int| 0 <= i < j < v@.len() implies image_le(#[trigger] v@[i], #[trigger] v@[j]) by {
            if j < p {
            } else if i < p && j == p {
            } else if i < p && j > p {
                assert(v@[(j - 1) + 1] == old_v[j - 1]);
            } else if i == p {
                assert(v@[(j - 1) + 1] == old_v[j - 1]);
            } else {
                assert(v@[(j - 1) + 1] == old_v[j - 1]);
                assert(v@[(i - 1) + 1] == old_v[i - 1]);
            }
        }
    }
}

/// The part of a file name before its first `.`; empty when it has none.
pub open spec fn before_first_dot(n: Seq<char>) -> Seq<char> {
    if exists|i: int| 0 <= i < n.len() && n[i] == '.' {
        let i = choose|i: int|
            0 <= i < n.len() && n[i] == '.' && forall|j: int| 0 <= j < i ==> n[j] != '.';
        n.subrange(0, i)
    } else {
        seq![]
    }
}

/// The name that a recipe's images carry: its file name up to the first `.`.
pub open spec fn recipe_name_of(path: Seq<char>) -> Seq<char> {
    match path_file_name(path) {
        Some(n) => before_first_dot(n),
        None => seq![],
    }
}

fn prefix_before_dot(n: &str) -> (r: String)
    ensures
        r@ == before_first_dot(n@),
{
    let len = n.unicode_len();
    let mut i: usize = 0;
    while i < len
        invariant
            len == n@.len(),
            i <= len,
            forall|j: int| 0 <= j < i ==> n@[j] != '.',
        decreases len - i,
    {
        if n.get_char(i) == '.' {
            let ghost k = choose|k: int|
                0 <= k < n@.len() && n@[k] == '.' && forall|j: int| 0 <= j < k ==> n@[j] != '.';
            assert(0 <= i < n@.len() && n@[i as int] == '.' && forall|j: int| 0 <= j < i ==> n@[j] != '.');
            assert(k == i) by {
                if k < i {
                } else if k > i {
                }
            }
            return String::from_str(n.substring_char(0, i));
        }
        i = i + 1;
    }
    String::new()
}

/// The images that the files `files` give for a recipe named `name`, in
/// the order of the files.
pub open spec fn images_of(name: Seq<char>, files: Seq<String>) -> Seq<Image>
    decreases files.len(),
{
    if files.len() == 0 {
        seq![]
    } else {
        let rest = images_of(name, files.drop_last());
        let f = files.last();
        match path_file_name(f@) {
            Some(n) => match image_indexes(name, n) {
                Some(ix) => rest.push(Image { indexes: ix, path: f }),
                None => rest,
            },
            None => rest,
        }
    }
}

/// The images of the recipe at `path`, among `siblings`, the files of the
/// recipe's directory: those whose names bind to the recipe, sorted by
/// indexes (none first) and then by path.
pub fn recipe_images(path: &str, siblings: &Vec<String>) -> (r: Vec<Image>)
    ensures
        sorted_images(r@),
        r@.to_multiset() == images_of(recipe_name_of(path@), siblings@).to_multiset(),
{
    let name = match file_name(path) {
        Some(n) => prefix_before_dot(n.as_str()),
        None => String::new(),
    };
    let mut out: Vec<Image> = Vec::new();
    let mut i: usize = 0;
    while i < siblings.len()
        invariant
            i <= siblings@.len(),
            name@ == recipe_name_of(path@),
            sorted_images(out@),
            out@.to_multiset() == images_of(name@, siblings@.subrange(0, i as int)).to_multiset(),
        decreases siblings.len() - i,
    {
        let f = &siblings[i];
        let ghost pre = siblings@.subrange(0, i as int);
        assert(siblings@.subrange(0, i + 1).drop_last() == pre);
        assert(siblings@.subrange(0, i + 1).last() == *f);
        proof {
            broadcast use vstd::seq_lib::to_multiset_build;
        }
        match file_name(f.as_str()) {
            Some(n) => match indexes_of(name.as_str(), n.as_str()) {
                Some(ix) => {
                    insert_sorted(&mut out, Image { indexes: ix, path: f.clone() });
                },
                None => {},
            },
            None => {},
        }
        i = i + 1;
    }
    assert(siblings@.subrange(0, siblings@.len() as int) == siblings@);
    out
}

/// A reference from an image to a part of the recipe that does not exist.
#[derive(Debug)]
pub enum RecipeImageError {
    MissingSection { section: usize, image: String },
    MissingStep { section: usize, step: usize, image: String },
}

/// What is wrong with one image, given the number of steps of each section.
pub open spec fn image_error(img: Image, steps: Seq<usize>) -> Option<RecipeImageError> {
    match img.indexes {
        None => None,
        Some((s, t)) => if s >= steps.len() {
            Some(RecipeImageError::MissingSection { section: s, image: img.path })
        } else if t >= steps[s as int] {
            Some(RecipeImageError::MissingStep { section: s, step: t, image: img.path })
        } else {
            None
        },
    }
}

/// Everything that is wrong with the images, in their order.
pub open spec fn image_errors(images: Seq<Image>, steps: Seq<usize>) -> Seq<RecipeImageError>
    decreases images.len(),
{
    if images.len() == 0 {
        seq![]
    } else {
        let rest = image_errors(images.drop_last(), steps);
        match image_error(images.last(), steps) {
            Some(e) => rest.push(e),
            None => rest,
        }
    }
}

/// Checks that every image refers to a section and step that the recipe
/// has; `steps` holds the number of steps of each section. Reports every
/// wrong reference, in the order of the images.
pub fn check_recipe_images(images: &[Image], steps: &Vec<usize>) -> (r: Result<(), Vec<RecipeImageError>>)
    ensures
        image_errors(images@, steps@).len() == 0 ==> r is Ok,
        image_errors(images@, steps@).len() > 0 ==> r is Err && r->Err_0@ == image_errors(images@, steps@),
{
    let mut errors: Vec<RecipeImageError> = Vec::new();
    let mut i: usize = 0;
    while i < images.len()
        invariant
            i <= images@.len(),
            errors@ == image_errors(images@.subrange(0, i as int), steps@),
        decreases images.len() - i,
    {
        let image = &images[i];
        assert(images@.subrange(0, i + 1).drop_last() == images@.subrange(0, i as int));
        assert(images@.subrange(0, i + 1).last() == *image);
        match image.indexes {
            Some((section, step)) => {
                if section >= steps.len() {
                    errors.push(RecipeImageError::MissingSection { section, image: image.path.clone() });
                } else if step >= steps[section] {
                    errors.push(RecipeImageError::MissingStep { section, step, image: image.path.clone() });
                }
            },
            None => {},
        }
        i = i + 1;
    }
    assert(images@.subrange(0, images@.len() as int) == images@);
    if errors.len() == 0 {
        Ok(())
    } else {
        Err(errors)
    }
}

} // verus!
