use vstd::prelude::*;
use crate::error::{AppError, ErrorCode, error_of};
use crate::text::{chars_of, join_chars, join_with, string_from_chars};

verus! {

/// Splits `s` at every `sep`, keeping empty pieces (so there is always at least one piece).
pub open spec fn split_on(s: Seq<char>, sep: char) -> Seq<Seq<char>>
    decreases s.len(),
{
    if s.len() == 0 {
        seq![Seq::<char>::empty()]
    } else {
        let prev = split_on(s.drop_last(), sep);
        if s.last() == sep {
            prev.push(Seq::<char>::empty())
        } else {
            prev.update(prev.len() - 1, prev.last().push(s.last()))
        }
    }
}

pub proof fn lemma_split_on_nonempty(s: Seq<char>, sep: char)
    ensures
        split_on(s, sep).len() >= 1,
    decreases s.len(),
{
    if s.len() > 0 {
        lemma_split_on_nonempty(s.drop_last(), sep);
    }
}

/// The marker that stands for the root component (`/` never occurs inside a normal component).
pub open spec fn root_part() -> Seq<char> {
    seq!['/']
}

pub open spec fn cur_part() -> Seq<char> {
    seq!['.']
}

pub open spec fn parent_part() -> Seq<char> {
    seq!['.', '.']
}

pub open spec fn is_rooted(s: Seq<char>) -> bool {
    s.len() > 0 && s[0] == '/'
}

/// Pieces that survive as components: non-empty and not a `.` in the middle of a path.
pub open spec fn kept_pieces(pieces: Seq<Seq<char>>) -> Seq<Seq<char>>
    decreases pieces.len(),
{
    if pieces.len() == 0 {
        Seq::empty()
    } else {
        let prev = kept_pieces(pieces.drop_last());
        let p = pieces.last();
        if p.len() > 0 && p != cur_part() {
            prev.push(p)
        } else {
            prev
        }
    }
}

/// Unix path components: an optional root (`/`), an optional leading `.`, then the
/// non-empty pieces between separators other than `.`; `..` stays as a piece.
pub open spec fn components(s: Seq<char>) -> Seq<Seq<char>> {
    let pieces = split_on(s, '/');
    if is_rooted(s) {
        seq![root_part()] + kept_pieces(pieces)
    } else if pieces[0] == cur_part() {
        seq![cur_part()] + kept_pieces(pieces.drop_first())
    } else {
        kept_pieces(pieces)
    }
}

/// A component that names an entry (neither root, `.`, nor `..`).
pub open spec fn is_normal(c: Seq<char>) -> bool {
    c != root_part() && c != cur_part() && c != parent_part()
}

fn is_cur(p: &Vec<char>) -> (b: bool)
    ensures
        b == (p@ == cur_part()),
{
    let b = p.len() == 1 && p[0] == '.';
    proof {
        if b {
            assert(p@ =~= cur_part());
        }
    }
    b
}

fn is_parent(p: &Vec<char>) -> (b: bool)
    ensures
        b == (p@ == parent_part()),
{
    let b = p.len() == 2 && p[0] == '.' && p[1] == '.';
    proof {
        if p@ == parent_part() {
            assert(p@[0] == '.' && p@[1] == '.');
        }
        if b {
            assert(p@ =~= parent_part());
        }
    }
    b
}

fn is_root(p: &Vec<char>) -> (b: bool)
    ensures
        b == (p@ == root_part()),
{
    let b = p.len() == 1 && p[0] == '/';
    proof {
        if b {
            assert(p@ =~= root_part());
        }
    }
    b
}

/// Splits a string at `/`, keeping empty pieces.
pub fn split_pieces(s: &Vec<char>) -> (pieces: Vec<Vec<char>>)
    ensures
        pieces.len() == split_on(s@, '/').len(),
        forall|i: int| 0 <= i < pieces.len() ==> #[trigger] pieces[i]@ == split_on(s@, '/')[i],
{
    let mut pieces: Vec<Vec<char>> = Vec::new();
    let mut cur: Vec<char> = Vec::new();
    let mut i: usize = 0;
    while i < s.len()
        invariant
            i <= s.len(),
            split_on(s@.take(i as int), '/').len() == pieces.len() + 1,
            forall|j: int| 0 <= j < pieces.len() ==> #[trigger] pieces[j]@ == split_on(s@.take(i as int), '/')[j],
            cur@ == split_on(s@.take(i as int), '/')[pieces.len() as int],
        decreases s.len() - i,
    {
        let c = s[i];
        assert(s@.take(i + 1).drop_last() =~= s@.take(i as int));
        proof {
            lemma_split_on_nonempty(s@.take(i as int), '/');
        }
        if c == '/' {
            pieces.push(cur);
            cur = Vec::new();
            assert(cur@ =~= Seq::<char>::empty());
        } else {
            cur.push(c);
        }
        i = i + 1;
    }
    assert(s@.take(s.len() as int) =~= s@);
    pieces.push(cur);
    pieces
}

/// The non-empty pieces other than `.` among `pieces[from..]`, in order.
pub(crate) fn keep_pieces(pieces: &Vec<Vec<char>>, from: usize, ghost_pieces: Ghost<Seq<Seq<char>>>) -> (kept: Vec<Vec<char>>)
    requires
        from <= pieces.len(),
        ghost_pieces@.len() == pieces.len() - from,
        forall|i: int| 0 <= i < ghost_pieces@.len() ==> #[trigger] ghost_pieces@[i] == pieces[from + i]@,
    ensures
        kept.len() == kept_pieces(ghost_pieces@).len(),
        forall|i: int| 0 <= i < kept.len() ==> #[trigger] kept[i]@ == kept_pieces(ghost_pieces@)[i],
{
    let mut kept: Vec<Vec<char>> = Vec::new();
    let mut i: usize = from;
    while i < pieces.len()
        invariant
            from <= i <= pieces.len(),
            ghost_pieces@.len() == pieces.len() - from,
            forall|j: int| 0 <= j < ghost_pieces@.len() ==> #[trigger] ghost_pieces@[j] == pieces[from + j]@,
            kept.len() == kept_pieces(ghost_pieces@.take(i - from)).len(),
            forall|j: int| 0 <= j < kept.len() ==> #[trigger] kept[j]@ == kept_pieces(ghost_pieces@.take(i - from))[j],
        decreases pieces.len() - i,
    {
        assert(ghost_pieces@.take(i + 1 - from).drop_last() =~= ghost_pieces@.take(i - from));
        assert(ghost_pieces@.take(i + 1 - from).last() == pieces[i as int]@);
        let p = &pieces[i];
        if p.len() > 0 && !is_cur(p) {
            kept.push(p.clone());
        }
        i = i + 1;
    }
    assert(ghost_pieces@.take(pieces.len() - from) =~= ghost_pieces@);
    kept
}

/// The components of a path (see [`components`]), each as a list of characters.
pub fn path_components(s: &Vec<char>) -> (comps: Vec<Vec<char>>)
    ensures
        comps.len() == components(s@).len(),
        forall|i: int| 0 <= i < comps.len() ==> #[trigger] comps[i]@ == components(s@)[i],
{
    let pieces = split_pieces(s);
    let ghost gp = split_on(s@, '/');
    proof { lemma_split_on_nonempty(s@, '/'); }
    assert forall|i: int| 0 <= i < gp.len() implies #[trigger] gp[i] == pieces[0 + i]@ by {}
    if s.len() > 0 && s[0] == '/' {
        let rest = keep_pieces(&pieces, 0, Ghost(gp));
        let mut comps: Vec<Vec<char>> = Vec::new();
        comps.push(vec!['/']);
        let ghost head = comps@;
        let mut j: usize = 0;
        while j < rest.len()
            invariant
                j <= rest.len(),
                comps.len() == j + 1,
                comps[0]@ == root_part(),
                forall|k: int| 0 < k < comps.len() ==> #[trigger] comps[k]@ == rest[k - 1]@,
            decreases rest.len() - j,
        {
            comps.push(rest[j].clone());
            j = j + 1;
        }
        assert forall|i: int| 0 <= i < comps.len() implies #[trigger] comps[i]@ == components(s@)[i] by {
            if i == 0 {
                assert(comps[0]@ =~= root_part());
            }
        }
        comps
    } else {
        let first_is_cur = is_cur(&pieces[0]);
        let start: usize = if first_is_cur { 1 } else { 0 };
        let ghost gr = if first_is_cur { gp.drop_first() } else { gp };
        assert forall|i: int| 0 <= i < gr.len() implies #[trigger] gr[i] == pieces[start + i]@ by {}
        let rest = keep_pieces(&pieces, start, Ghost(gr));
        let mut comps: Vec<Vec<char>> = Vec::new();
        if first_is_cur {
            comps.push(vec!['.']);
        }
        let ghost base: int = start as int;
        let mut j: usize = 0;
        while j < rest.len()
            invariant
                j <= rest.len(),
                comps.len() == j + start,
                start == 1 ==> comps[0]@ == cur_part(),
                forall|k: int| start <= k < comps.len() ==> #[trigger] comps[k]@ == rest[k - start]@,
            decreases rest.len() - j,
        {
            comps.push(rest[j].clone());
            j = j + 1;
        }
        assert forall|i: int| 0 <= i < comps.len() implies #[trigger] comps[i]@ == components(s@)[i] by {
            if first_is_cur && i == 0 {
                assert(comps[0]@ =~= cur_part());
            }
        }
        comps
    }
}

/// Whether a path names the root or a parent directory anywhere, i.e. could leave its base.
pub open spec fn escapes(s: Seq<char>) -> bool {
    exists|i: int| 0 <= i < components(s).len()
        && (#[trigger] components(s)[i] == root_part() || components(s)[i] == parent_part())
}

/// The components of a relative path with a leading `.` dropped.
pub open spec fn relative_parts(s: Seq<char>) -> Seq<Seq<char>> {
    if components(s).len() > 0 && components(s)[0] == cur_part() {
        components(s).drop_first()
    } else {
        components(s)
    }
}

/// The error for a relative path that tries to leave its base directory.
pub open spec fn is_escape_error(e: AppError) -> bool {
    &&& e.code == ErrorCode::PathOutsideScope
    &&& e.message@ == "照片相对路径试图离开输出目录。"@
    &&& e.suggestion@ == "请重新扫描照片目录并生成写入计划。"@
    &&& e.recoverable
}

/// The error for a relative path with no names in it.
pub open spec fn is_empty_path_error(e: AppError) -> bool {
    &&& e.code == ErrorCode::InvalidRequest
    &&& e.message@ == "照片相对路径为空。"@
    &&& e.suggestion@ == "请检查输入后重试。"@
    &&& e.recoverable
}

/// What [`safe_relative_path`] returns: the names of the path joined with `/`, or an error
/// when the path names the root or a parent, or names nothing.
pub open spec fn safe_relative_result(s: Seq<char>) -> Result<Seq<char>, ()> {
    if escapes(s) || relative_parts(s).len() == 0 {
        Err(())
    } else {
        Ok(join_with(relative_parts(s), '/'))
    }
}

/// Re-assembles a relative path from its names, refusing any path that could leave the
/// directory it is joined to (an absolute path or one with a `..` component).
fn safe_relative_generic(value: &str) -> (result: Result<String, AppError>)
    ensures
        match result {
            Ok(r) => safe_relative_result(value@) == Ok::<Seq<char>, ()>(r@),
            Err(e) => {
                &&& safe_relative_result(value@) is Err
                &&& escapes(value@) ==> is_escape_error(e)
                &&& !escapes(value@) ==> is_empty_path_error(e)
            },
        },
{
    let chars = chars_of(value);
    let comps = path_components(&chars);
    let mut names: Vec<Vec<char>> = Vec::new();
    let ghost cs = components(value@);
    let mut i: usize = 0;
    while i < comps.len()
        invariant
            i <= comps.len(),
            cs == components(value@),
            comps.len() == cs.len(),
            forall|j: int| 0 <= j < comps.len() ==> #[trigger] comps[j]@ == cs[j],
            forall|j: int| 0 <= j < i ==> #[trigger] cs[j] != root_part() && cs[j] != parent_part(),
            cs.len() > 0 && cs[0] == cur_part() && i > 0 ==> names.len() == i - 1
                && forall|j: int| 0 <= j < names.len() ==> #[trigger] names[j]@ == cs[j + 1],
            !(cs.len() > 0 && cs[0] == cur_part()) ==> names.len() == i
                && forall|j: int| 0 <= j < names.len() ==> #[trigger] names[j]@ == cs[j],
            i == 0 ==> names.len() == 0,
        decreases comps.len() - i,
    {
        let c = &comps[i];
        if is_root(c) || is_parent(c) {
            return Err(error_of(
                ErrorCode::PathOutsideScope,
                "照片相对路径试图离开输出目录。",
                "请重新扫描照片目录并生成写入计划。",
                true,
            ));
        }
        if is_cur(c) {
            proof { lemma_cur_only_first(value@, i as int); }
        } else {
            names.push(c.clone());
        }
        i = i + 1;
    }
    assert(!escapes(value@));
    let ghost parts = relative_parts(value@);
    assert(names.len() == parts.len());
    assert forall|j: int| 0 <= j < names.len() implies #[trigger] names[j]@ == parts[j] by {}
    if names.len() == 0 {
        return Err(AppError::invalid("照片相对路径为空。".to_owned()));
    }
    let joined = join_chars(&names, '/', Ghost(parts));
    Ok(string_from_chars(&joined))
}

/// `.` can only be the first component.
pub proof fn lemma_cur_only_first(s: Seq<char>, i: int)
    requires
        0 <= i < components(s).len(),
        components(s)[i] == cur_part(),
    ensures
        i == 0,
        !is_rooted(s),
{
    lemma_split_on_nonempty(s, '/');
    let pieces = split_on(s, '/');
    if is_rooted(s) {
        if i == 0 {
            assert(components(s)[0] == root_part());
            assert(root_part()[0] != cur_part()[0]);
        } else {
            assert(components(s)[i] == kept_pieces(pieces)[i - 1]);
            lemma_kept_not_cur(pieces, i - 1);
        }
    } else if pieces[0] == cur_part() {
        if i > 0 {
            lemma_kept_not_cur(pieces.drop_first(), i - 1);
        }
    } else {
        lemma_kept_not_cur(pieces, i);
    }
}

/// Kept pieces are never empty and never `.`.
pub proof fn lemma_kept_not_cur(pieces: Seq<Seq<char>>, i: int)
    requires
        0 <= i < kept_pieces(pieces).len(),
    ensures
        kept_pieces(pieces)[i] != cur_part(),
        kept_pieces(pieces)[i].len() > 0,
    decreases pieces.len(),
{
    if pieces.len() > 0 {
        let prev = kept_pieces(pieces.drop_last());
        if i < prev.len() {
            lemma_kept_not_cur(pieces.drop_last(), i);
        }
    }
}

/// Lexical normalization: `.` is dropped, `..` removes the previous name (failing when
/// there is none), the root starts over.
pub open spec fn normalize_stack(comps: Seq<Seq<char>>) -> Option<Seq<Seq<char>>>
    decreases comps.len(),
{
    if comps.len() == 0 {
        Some(Seq::empty())
    } else {
        match normalize_stack(comps.drop_last()) {
            None => None,
            Some(stack) => {
                let c = comps.last();
                if c == root_part() {
                    Some(Seq::empty())
                } else if c == cur_part() {
                    Some(stack)
                } else if c == parent_part() {
                    if stack.len() == 0 {
                        None
                    } else {
                        Some(stack.drop_last())
                    }
                } else {
                    Some(stack.push(c))
                }
            },
        }
    }
}

/// The error for a path whose `..` would climb above the root.
pub open spec fn is_climb_error(e: AppError) -> bool {
    &&& e.code == ErrorCode::PathOutsideScope
    &&& e.message@ == "路径包含越界的上级目录。"@
    &&& e.suggestion@ == "请选择明确的项目或输出目录。"@
    &&& e.recoverable
}

/// The normalized form: `/` for a rooted path, then the remaining names joined by `/`.
pub open spec fn normalized_path(s: Seq<char>, stack: Seq<Seq<char>>) -> Seq<char> {
    if is_rooted(s) {
        seq!['/'] + join_with(stack, '/')
    } else {
        join_with(stack, '/')
    }
}

/// Removes `.` and resolves `..` lexically, without touching the file system. The path is
/// taken as given: a relative path is joined to the current directory before it comes here.
fn normalize_generic(path: &str) -> (result: Result<String, AppError>)
    ensures
        match normalize_stack(components(path@)) {
            None => result is Err && is_climb_error(result->Err_0),
            Some(stack) => result is Ok && result->Ok_0@ == normalized_path(path@, stack),
        },
{
    let chars = chars_of(path);
    let comps = path_components(&chars);
    let ghost cs = components(path@);
    let mut stack: Vec<Vec<char>> = Vec::new();
    let mut i: usize = 0;
    while i < comps.len()
        invariant
            i <= comps.len(),
            cs == components(path@),
            comps.len() == cs.len(),
            forall|j: int| 0 <= j < comps.len() ==> #[trigger] comps[j]@ == cs[j],
            normalize_stack(cs.take(i as int)) is Some,
            stack.len() == normalize_stack(cs.take(i as int))->Some_0.len(),
            forall|j: int| 0 <= j < stack.len() ==> #[trigger] stack[j]@ == normalize_stack(cs.take(i as int))->Some_0[j],
        decreases comps.len() - i,
    {
        assert(cs.take(i + 1).drop_last() =~= cs.take(i as int));
        assert(cs.take(i + 1).last() == comps[i as int]@);
        let c = &comps[i];
        if is_root(c) {
            stack = Vec::new();
        } else if is_cur(c) {
        } else if is_parent(c) {
            if stack.len() == 0 {
                proof { lemma_normalize_none_persists(cs, i as int + 1); }
                return Err(error_of(
                    ErrorCode::PathOutsideScope,
                    "路径包含越界的上级目录。",
                    "请选择明确的项目或输出目录。",
                    true,
                ));
            }
            stack.pop();
        } else {
            stack.push(c.clone());
        }
        i = i + 1;
    }
    assert(cs.take(comps.len() as int) =~= cs);
    let ghost st = normalize_stack(cs)->Some_0;
    let joined = join_chars(&stack, '/', Ghost(st));
    let mut out: Vec<char> = Vec::new();
    if chars.len() > 0 && chars[0] == '/' {
        out.push('/');
    }
    let mut k: usize = 0;
    let ghost pre = out@;
    while k < joined.len()
        invariant
            k <= joined.len(),
            out@ == pre + joined@.take(k as int),
        decreases joined.len() - k,
    {
        out.push(joined[k]);
        assert(joined@.take(k + 1) =~= joined@.take(k as int).push(joined@[k as int]));
        k = k + 1;
    }
    assert(joined@.take(joined.len() as int) =~= joined@);
    assert(out@ =~= normalized_path(path@, st));
    Ok(string_from_chars(&out))
}

/// Once `..` climbs above the root, normalization fails whatever follows.
pub proof fn lemma_normalize_none_persists(cs: Seq<Seq<char>>, n: int)
    requires
        0 <= n <= cs.len(),
        normalize_stack(cs.take(n)) is None,
    ensures
        normalize_stack(cs) is None,
    decreases cs.len() - n,
{
    if n == cs.len() {
        assert(cs.take(n) =~= cs);
    } else {
        assert(cs.take(n + 1).drop_last() =~= cs.take(n));
        lemma_normalize_none_persists(cs, n + 1);
    }
}

/// Whether the components of `base` are a prefix of the components of `path`.
pub open spec fn starts_with_path(path: Seq<char>, base: Seq<char>) -> bool {
    let p = components(path);
    let b = components(base);
    b.len() <= p.len() && forall|i: int| 0 <= i < b.len() ==> #[trigger] p[i] == b[i]
}

/// Component-wise prefix test (`Path::starts_with`).
fn starts_with_generic(path: &str, base: &str) -> (b: bool)
    ensures
        b == starts_with_path(path@, base@),
{
    let p = path_components(&chars_of(path));
    let q = path_components(&chars_of(base));
    if q.len() > p.len() {
        return false;
    }
    let mut i: usize = 0;
    while i < q.len()
        invariant
            i <= q.len() <= p.len(),
            p.len() == components(path@).len(),
            q.len() == components(base@).len(),
            forall|j: int| 0 <= j < p.len() ==> #[trigger] p[j]@ == components(path@)[j],
            forall|j: int| 0 <= j < q.len() ==> #[trigger] q[j]@ == components(base@)[j],
            forall|j: int| 0 <= j < i ==> #[trigger] components(path@)[j] == components(base@)[j],
        decreases q.len() - i,
    {
        if !chars_equal(&p[i], &q[i]) {
            return false;
        }
        i = i + 1;
    }
    true
}

/// Character-wise equality of two character lists.
pub fn chars_equal(a: &Vec<char>, b: &Vec<char>) -> (eq: bool)
    ensures
        eq == (a@ == b@),
{
    if a.len() != b.len() {
        return false;
    }
    let mut i: usize = 0;
    while i < a.len()
        invariant
            i <= a.len() == b.len(),
            forall|j: int| 0 <= j < i ==> a@[j] == b@[j],
        decreases a.len() - i,
    {
        if a[i] != b[i] {
            return false;
        }
        i = i + 1;
    }
    assert(a@ =~= b@);
    true
}

/// Whether two paths have the same components (`Path` equality).
pub open spec fn same_path(a: Seq<char>, b: Seq<char>) -> bool {
    components(a) =~= components(b)
}

/// `Path` equality: the same components in the same order.
fn same_path_generic(a: &str, b: &str) -> (eq: bool)
    ensures
        eq == same_path(a@, b@),
{
    let x = starts_with_generic(a, b);
    let y = starts_with_generic(b, a);
    proof {
        if x && y {
            assert(components(a@) =~= components(b@));
        }
    }
    x && y
}

/// `dir` extended by the relative path `rel`, with one `/` between them.
pub open spec fn joined_path(dir: Seq<char>, rel: Seq<char>) -> Seq<char> {
    if dir.len() == 0 {
        rel
    } else if dir.last() == '/' {
        dir + rel
    } else {
        dir.push('/') + rel
    }
}

/// Appends a relative path to a directory (`Path::join` for a relative argument).
fn join_generic(dir: &str, rel: &str) -> (out: String)
    ensures
        out@ == joined_path(dir@, rel@),
{
    let d = chars_of(dir);
    let mut out = dir.to_owned();
    if d.len() > 0 && d[d.len() - 1] != '/' {
        crate::text::push_char(&mut out, '/');
    }
    crate::text::push_str(&mut out, rel);
    out
}

/// The last component when it names an entry (`Path::file_name`).
pub open spec fn file_name_of(s: Seq<char>) -> Option<Seq<char>> {
    let c = components(s);
    if c.len() > 0 && is_normal(c.last()) {
        Some(c.last())
    } else {
        None
    }
}

/// The final name of a path, if it has one.
fn file_name_generic(path: &str) -> (name: Option<String>)
    ensures
        match name {
            Some(n) => file_name_of(path@) == Some(n@),
            None => file_name_of(path@) is None,
        },
{
    let comps = path_components(&chars_of(path));
    if comps.len() == 0 {
        return None;
    }
    let last = &comps[comps.len() - 1];
    if is_root(last) || is_cur(last) || is_parent(last) {
        None
    } else {
        Some(string_from_chars(last))
    }
}

/// Index of the last `c` in `s`, if any.
pub open spec fn last_index_of(s: Seq<char>, c: char) -> Option<int>
    decreases s.len(),
{
    if s.len() == 0 {
        None
    } else if s.last() == c {
        Some(s.len() - 1)
    } else {
        last_index_of(s.drop_last(), c)
    }
}

/// The extension of a file name: the text after the last `.`, unless that `.` starts
/// the name (`Path::extension` on the file name).
pub open spec fn extension_of_name(name: Seq<char>) -> Option<Seq<char>> {
    match last_index_of(name, '.') {
        Some(k) => if k > 0 { Some(name.subrange(k + 1, name.len() as int)) } else { None },
        None => None,
    }
}

/// The stem of a file name: the text before the last `.`, or the whole name when that `.`
/// is missing or starts the name (`Path::file_stem` on the file name).
pub open spec fn stem_of_name(name: Seq<char>) -> Seq<char> {
    match last_index_of(name, '.') {
        Some(k) => if k > 0 { name.subrange(0, k) } else { name },
        None => name,
    }
}

fn last_dot(name: &Vec<char>) -> (k: Option<usize>)
    ensures
        match k {
            Some(k) => last_index_of(name@, '.') == Some(k as int),
            None => last_index_of(name@, '.') is None,
        },
{
    let mut i: usize = name.len();
    assert(name@.take(i as int) =~= name@);
    while i > 0
        invariant
            i <= name.len(),
            last_index_of(name@, '.') == last_index_of(name@.take(i as int), '.'),
        decreases i,
    {
        assert(name@.take(i as int).drop_last() =~= name@.take(i - 1));
        if name[i - 1] == '.' {
            return Some(i - 1);
        }
        i = i - 1;
    }
    None
}

proof fn lemma_last_index_bounds(s: Seq<char>, c: char)
    ensures
        match last_index_of(s, c) {
            Some(k) => 0 <= k < s.len() && s[k] == c,
            None => true,
        },
    decreases s.len(),
{
    if s.len() > 0 && s.last() != c {
        lemma_last_index_bounds(s.drop_last(), c);
    }
}

/// The extension of the final name of a path (`Path::extension`).
fn extension_generic(path: &str) -> (ext: Option<String>)
    ensures
        match ext {
            Some(e) => file_name_of(path@) is Some && extension_of_name(file_name_of(path@)->Some_0) == Some(e@),
            None => file_name_of(path@) is None || extension_of_name(file_name_of(path@)->Some_0) is None,
        },
{
    match file_name_generic(path) {
        None => None,
        Some(name) => {
            let chars = chars_of(name.as_str());
            proof { lemma_last_index_bounds(chars@, '.'); }
            match last_dot(&chars) {
                Some(k) => {
                    assert(last_index_of(chars@, '.') == Some(k as int));
                    assert(k < chars.len());
                    if k == 0 {
                        None
                    } else {
                        let mut tail: Vec<char> = Vec::new();
                        let mut i: usize = k + 1;
                        while i < chars.len()
                            invariant
                                k + 1 <= i <= chars.len(),
                                tail@ == chars@.subrange(k + 1, i as int),
                            decreases chars.len() - i,
                        {
                            tail.push(chars[i]);
                            assert(chars@.subrange(k + 1, i + 1) =~= chars@.subrange(k + 1, i as int).push(chars@[i as int]));
                            i = i + 1;
                        }
                        Some(string_from_chars(&tail))
                    }
                },
                None => None,
            }
        },
    }
}


/// The stem of the final name of a path (`Path::file_stem`).
fn file_stem_generic(path: &str) -> (stem: Option<String>)
    ensures
        match stem {
            Some(t) => file_name_of(path@) is Some && stem_of_name(file_name_of(path@)->Some_0) == t@,
            None => file_name_of(path@) is None,
        },
{
    match file_name_generic(path) {
        None => None,
        Some(name) => {
            let chars = chars_of(name.as_str());
            proof { lemma_last_index_bounds(chars@, '.'); }
            match last_dot(&chars) {
                Some(k) => {
                    assert(k < chars.len());
                    if k == 0 {
                        Some(name)
                    } else {
                        let mut head: Vec<char> = Vec::new();
                        let mut i: usize = 0;
                        while i < k
                            invariant
                                i <= k < chars.len(),
                                head@ == chars@.subrange(0, i as int),
                            decreases k - i,
                        {
                            head.push(chars[i]);
                            assert(chars@.subrange(0, i + 1) =~= chars@.subrange(0, i as int).push(chars@[i as int]));
                            i = i + 1;
                        }
                        Some(string_from_chars(&head))
                    }
                },
                None => Some(name),
            }
        },
    }
}


/// The rest of `path` after the components of `base`, joined by `/`, when `base` is a
/// component-wise prefix of it (`Path::strip_prefix` on paths without redundant separators or
/// `.` components).
pub open spec fn stripped_path(path: Seq<char>, base: Seq<char>) -> Option<Seq<char>> {
    if starts_with_path(path, base) {
        Some(join_with(components(path).skip(components(base).len() as int), '/'))
    } else {
        None
    }
}

/// Removes the prefix `base` from `path` (see `stripped_path`).
fn strip_prefix_generic(path: &str, base: &str) -> (rest: Option<String>)
    ensures
        match rest {
            Some(r) => stripped_path(path@, base@) == Some(r@),
            None => stripped_path(path@, base@) is None,
        },
{
    if !starts_with_generic(path, base) {
        return None;
    }
    let p = path_components(&chars_of(path));
    let q = path_components(&chars_of(base));
    let ghost cp = components(path@);
    let ghost cq = components(base@);
    let mut rest: Vec<Vec<char>> = Vec::new();
    let mut i: usize = q.len();
    while i < p.len()
        invariant
            q.len() <= i <= p.len(),
            p.len() == cp.len(),
            q.len() == cq.len(),
            cp == components(path@),
            forall|j: int| 0 <= j < p.len() ==> #[trigger] p[j]@ == cp[j],
            rest@.len() == i - q.len(),
            forall|j: int| 0 <= j < rest@.len() ==> #[trigger] rest@[j]@ == cp[j + q.len()],
        decreases p.len() - i,
    {
        let piece = copy_chars(&p[i]);
        rest.push(piece);
        i = i + 1;
    }
    let ghost parts = cp.skip(q.len() as int);
    assert forall|j: int| 0 <= j < rest.len() implies #[trigger] rest[j]@ == parts[j] by {}
    let joined = join_chars(&rest, '/', Ghost(parts));
    Some(string_from_chars(&joined))
}

fn copy_chars(v: &Vec<char>) -> (out: Vec<char>)
    ensures
        out@ == v@,
{
    let mut out: Vec<char> = Vec::new();
    let mut i: usize = 0;
    while i < v.len()
        invariant
            i <= v.len(),
            out@ == v@.take(i as int),
        decreases v.len() - i,
    {
        out.push(v[i]);
        assert(v@.take(i + 1) =~= v@.take(i as int).push(v@[i as int]));
        i = i + 1;
    }
    assert(v@.take(i as int) =~= v@);
    out
}


// ---------------------------------------------------------------------------------------------
// The platform's path syntax. On Windows a path may start with a prefix: a drive (`C:`), a
// UNC share (`\\server\share`), a verbatim path (`\\?\C:`, `\\?\UNC\server\share`,
// `\\?\name`) or a device (`\\.\name`); both `\` and `/` separate components. A path is
// read as its prefix followed by its body, the rest with `/` for every separator; the body is
// read with the rules above, and results are written with the platform's separator.
// ---------------------------------------------------------------------------------------------

pub open spec fn is_drive_letter(c: char) -> bool {
    ('a' <= c && c <= 'z') || ('A' <= c && c <= 'Z')
}

pub open spec fn is_separator_in(c: char, windows: bool) -> bool {
    c == '/' || (windows && c == '\\')
}

/// The text with every `\` written as `/`.
pub open spec fn forward_slashes(s: Seq<char>) -> Seq<char> {
    s.map_values(|c: char| if c == '\\' { '/' } else { c })
}

/// The text with its separators written as the platform writes them (`\` on Windows).
pub open spec fn native_text(s: Seq<char>, windows: bool) -> Seq<char> {
    if windows {
        s.map_values(|c: char| if c == '/' { '\\' } else { c })
    } else {
        s
    }
}

/// A Windows drive prefix such as `C:`.
pub open spec fn has_drive(s: Seq<char>, windows: bool) -> bool {
    windows && s.len() >= 2 && s[1] == ':' && is_drive_letter(s[0])
}

/// The position of the first separator at or after `i` (only `\` when `only_back`), or the
/// length of the text when there is none.
pub open spec fn next_separator(s: Seq<char>, i: int, only_back: bool) -> int
    decreases s.len() - i,
{
    if i < 0 || i >= s.len() {
        s.len() as int
    } else if s[i] == '\\' || (!only_back && s[i] == '/') {
        i
    } else {
        next_separator(s, i + 1, only_back)
    }
}

/// `\\?\`: a verbatim path, whose prefix is read with `\` alone.
pub open spec fn is_verbatim(s: Seq<char>) -> bool {
    s.len() >= 4 && s[0] == '\\' && s[1] == '\\' && s[2] == '?' && s[3] == '\\'
}

/// `\\?\UNC\server\share`.
pub open spec fn is_verbatim_unc(s: Seq<char>) -> bool {
    is_verbatim(s) && s.len() >= 8 && s[4] == 'U' && s[5] == 'N' && s[6] == 'C' && s[7] == '\\'
}

/// `\\?\C:`, followed by nothing or by `\`.
pub open spec fn is_verbatim_disk(s: Seq<char>) -> bool {
    is_verbatim(s) && s.len() >= 6 && is_drive_letter(s[4]) && s[5] == ':' && (s.len() == 6 || s[6] == '\\')
}

/// `\\.\name`: a device.
pub open spec fn is_device(s: Seq<char>) -> bool {
    s.len() >= 4 && is_separator_in(s[0], true) && is_separator_in(s[1], true) && s[2] == '.' && is_separator_in(s[3], true)
}

/// The length of a UNC prefix `\\server\share` (both names non-empty), or 0.
pub open spec fn unc_len(s: Seq<char>) -> int {
    let a = next_separator(s, 2, false);
    if s.len() >= 2 && is_separator_in(s[0], true) && is_separator_in(s[1], true) && a > 2 && a < s.len()
        && next_separator(s, a + 1, false) > a + 1 {
        next_separator(s, a + 1, false)
    } else {
        0
    }
}

/// The length of the path's prefix on the platform (0 for none, always on Unix).
pub open spec fn prefix_len(s: Seq<char>, windows: bool) -> int {
    if !windows {
        0
    } else if has_drive(s, true) {
        2
    } else if is_verbatim_unc(s) {
        let a = next_separator(s, 8, true);
        if a >= s.len() { a } else { next_separator(s, a + 1, true) }
    } else if is_verbatim_disk(s) {
        6
    } else if is_verbatim(s) {
        next_separator(s, 4, true)
    } else if is_device(s) {
        next_separator(s, 4, false)
    } else {
        unc_len(s)
    }
}

pub open spec fn path_prefix(s: Seq<char>, windows: bool) -> Seq<char> {
    s.take(prefix_len(s, windows))
}

/// The path after its prefix, with `/` for every separator.
pub open spec fn path_body(s: Seq<char>, windows: bool) -> Seq<char> {
    if windows {
        forward_slashes(s.skip(prefix_len(s, true)))
    } else {
        s
    }
}

/// An absolute path (`Path::is_absolute`): rooted on Unix; on Windows a drive followed by a
/// separator, or a path with any other prefix (which carries its own root).
pub open spec fn is_absolute_path(s: Seq<char>, windows: bool) -> bool {
    if windows {
        (has_drive(s, true) && is_rooted(path_body(s, true))) || (prefix_len(s, true) > 0 && !has_drive(s, true))
    } else {
        is_rooted(s)
    }
}

fn find_separator(chars: &Vec<char>, i: usize, only_back: bool) -> (k: usize)
    ensures
        k == next_separator(chars@, i as int, only_back),
        i <= chars.len() ==> i <= k,
        k <= chars.len(),
{
    if i >= chars.len() {
        return chars.len();
    }
    let mut j: usize = i;
    while j < chars.len()
        invariant
            i <= j <= chars.len(),
            i < chars.len(),
            next_separator(chars@, i as int, only_back) == next_separator(chars@, j as int, only_back),
        decreases chars.len() - j,
    {
        if chars[j] == '\\' || (!only_back && chars[j] == '/') {
            return j;
        }
        j = j + 1;
    }
    j
}

fn prefix_length(chars: &Vec<char>, windows: bool) -> (k: usize)
    ensures
        k == prefix_len(chars@, windows),
        k <= chars.len(),
{
    let n = chars.len();
    if !windows {
        return 0;
    }
    if n >= 2 && chars[1] == ':' && ((chars[0] >= 'a' && chars[0] <= 'z') || (chars[0] >= 'A' && chars[0] <= 'Z')) {
        return 2;
    }
    let verbatim = n >= 4 && chars[0] == '\\' && chars[1] == '\\' && chars[2] == '?' && chars[3] == '\\';
    if verbatim && n >= 8 && chars[4] == 'U' && chars[5] == 'N' && chars[6] == 'C' && chars[7] == '\\' {
        let a = find_separator(chars, 8, true);
        if a >= n {
            return a;
        }
        return find_separator(chars, a + 1, true);
    }
    if verbatim && n >= 6 && ((chars[4] >= 'a' && chars[4] <= 'z') || (chars[4] >= 'A' && chars[4] <= 'Z')) && chars[5] == ':'
        && (n == 6 || chars[6] == '\\') {
        return 6;
    }
    if verbatim {
        return find_separator(chars, 4, true);
    }
    let two = n >= 2 && (chars[0] == '/' || chars[0] == '\\') && (chars[1] == '/' || chars[1] == '\\');
    if two && n >= 4 && chars[2] == '.' && (chars[3] == '/' || chars[3] == '\\') {
        return find_separator(chars, 4, false);
    }
    if !two {
        return 0;
    }
    let a = find_separator(chars, 2, false);
    if a > 2 && a < n {
        let b = find_separator(chars, a + 1, false);
        if b > a + 1 {
            return b;
        }
    }
    0
}

/// The prefix and the body of a path (see `path_prefix`, `path_body`).
pub fn split_path(path: &str, windows: bool) -> (r: (String, String))
    ensures
        r.0@ == path_prefix(path@, windows),
        r.1@ == path_body(path@, windows),
        0 <= prefix_len(path@, windows) <= path@.len(),
{
    let chars = chars_of(path);
    let k = prefix_length(&chars, windows);
    let mut head: Vec<char> = Vec::new();
    let mut body: Vec<char> = Vec::new();
    let mut i: usize = 0;
    while i < chars.len()
        invariant
            i <= chars.len(),
            chars@ == path@,
            k == prefix_len(path@, windows),
            k <= chars.len(),
            i <= k ==> head@ == chars@.take(i as int) && body@.len() == 0,
            i > k ==> head@ == chars@.take(k as int),
            i >= k ==> body@ == (if windows { forward_slashes(chars@.skip(k as int).take(i - k)) } else { chars@.skip(k as int).take(i - k) }),
        decreases chars.len() - i,
    {
        let c = chars[i];
        if i < k {
            head.push(c);
            assert(chars@.take(i + 1) =~= chars@.take(i as int).push(c));
        } else {
            body.push(if windows && c == '\\' { '/' } else { c });
            assert(chars@.skip(k as int).take(i + 1 - k) =~= chars@.skip(k as int).take(i - k).push(c));
            if windows {
                assert(forward_slashes(chars@.skip(k as int).take(i + 1 - k))
                    =~= forward_slashes(chars@.skip(k as int).take(i - k)).push(if c == '\\' { '/' } else { c }));
            }
        }
        i = i + 1;
        if i == k {
            assert(chars@.skip(k as int).take(0) =~= Seq::<char>::empty());
            if windows {
                assert(forward_slashes(chars@.skip(k as int).take(0)) =~= Seq::<char>::empty());
            }
        }
    }
    if k == 0 {
        assert(chars@.skip(0).take(0) =~= Seq::<char>::empty());
        if windows {
            assert(forward_slashes(chars@.skip(0).take(0)) =~= Seq::<char>::empty());
        }
        assert(head@ =~= chars@.take(0));
    }
    assert(chars@.skip(k as int).take(chars.len() - k) =~= chars@.skip(k as int));
    assert(!windows ==> chars@.skip(0) =~= chars@);
    (string_from_chars(&head), string_from_chars(&body))
}

/// Writes a text's separators as the platform does (see `native_text`).
pub fn native_string(s: &str, windows: bool) -> (out: String)
    ensures
        out@ == native_text(s@, windows),
{
    if !windows {
        return s.to_owned();
    }
    let chars = chars_of(s);
    let mut out: Vec<char> = Vec::new();
    let mut i: usize = 0;
    while i < chars.len()
        invariant
            i <= chars.len(),
            chars@ == s@,
            out@ == s@.take(i as int).map_values(|c: char| if c == '/' { '\\' } else { c }),
        decreases chars.len() - i,
    {
        let c = chars[i];
        out.push(if c == '/' { '\\' } else { c });
        assert(s@.take(i + 1).map_values(|c: char| if c == '/' { '\\' } else { c })
            =~= s@.take(i as int).map_values(|c: char| if c == '/' { '\\' } else { c }).push(if c == '/' { '\\' } else { c }));
        i = i + 1;
    }
    assert(s@.take(chars.len() as int) =~= s@);
    string_from_chars(&out)
}

fn forward_chars(s: &str) -> (out: Vec<char>)
    ensures
        out@ == forward_slashes(s@),
{
    let chars = chars_of(s);
    let mut out: Vec<char> = Vec::new();
    let mut i: usize = 0;
    while i < chars.len()
        invariant
            i <= chars.len(),
            chars@ == s@,
            out@ == forward_slashes(s@.take(i as int)),
        decreases chars.len() - i,
    {
        let c = chars[i];
        out.push(if c == '\\' { '/' } else { c });
        assert(forward_slashes(s@.take(i + 1)) =~= forward_slashes(s@.take(i as int)).push(if c == '\\' { '/' } else { c }));
        i = i + 1;
    }
    assert(s@.take(chars.len() as int) =~= s@);
    out
}

/// Whether a path is absolute on the platform (see `is_absolute_path`).
pub fn is_absolute(path: &str, windows: bool) -> (b: bool)
    ensures
        b == is_absolute_path(path@, windows),
{
    let chars = chars_of(path);
    if !windows {
        return chars.len() > 0 && chars[0] == '/';
    }
    let k = prefix_length(&chars, true);
    let drive = chars.len() >= 2 && chars[1] == ':' && ((chars[0] >= 'a' && chars[0] <= 'z') || (chars[0] >= 'A' && chars[0] <= 'Z'));
    if k > 0 && !drive {
        return true;
    }
    if !drive {
        return false;
    }
    let (_, body) = split_path(path, true);
    let b = body.as_str();
    let bc = chars_of(b);
    bc.len() > 0 && bc[0] == '/'
}

/// What normalization gives on the platform: the prefix, then the normalized body written
/// with the platform's separators; nothing when a `..` climbs above the root.
pub open spec fn normalized_in(s: Seq<char>, windows: bool) -> Option<Seq<char>> {
    let body = path_body(s, windows);
    match normalize_stack(components(body)) {
        None => None,
        Some(stack) => Some(path_prefix(s, windows) + native_text(normalized_path(body, stack), windows)),
    }
}

/// Removes `.` and resolves `..` lexically, without touching the file system (the prefix is
/// kept and can never be climbed above). The path is taken as given: a relative path is joined
/// to the current directory before it comes here.
pub fn normalize_absolute(path: &str, windows: bool) -> (result: Result<String, AppError>)
    ensures
        match normalized_in(path@, windows) {
            None => result is Err && is_climb_error(result->Err_0),
            Some(r) => result is Ok && result->Ok_0@ == r,
        },
{
    let (prefix, body) = split_path(path, windows);
    match normalize_generic(body.as_str()) {
        Err(e) => Err(e),
        Ok(n) => {
            let mut out = prefix;
            crate::text::push_str(&mut out, native_string(n.as_str(), windows).as_str());
            Ok(out)
        },
    }
}

/// What re-assembling a relative path gives on the platform: a path with a prefix is refused;
/// otherwise its body is read as `safe_relative_result` reads it and written with the
/// platform's separators.
pub open spec fn relative_in(s: Seq<char>, windows: bool) -> Result<Seq<char>, ()> {
    if prefix_len(s, windows) > 0 {
        Err(())
    } else {
        match safe_relative_result(path_body(s, windows)) {
            Ok(r) => Ok(native_text(r, windows)),
            Err(_) => Err(()),
        }
    }
}

/// A relative path that could leave its base: one with a prefix, a root or a `..`.
pub open spec fn escapes_in(s: Seq<char>, windows: bool) -> bool {
    prefix_len(s, windows) > 0 || escapes(path_body(s, windows))
}

/// Re-assembles a relative path from its names, refusing any path that could leave the
/// directory it is joined to (one with a prefix, a root or a `..` component).
pub fn safe_relative_path(value: &str, windows: bool) -> (result: Result<String, AppError>)
    ensures
        match result {
            Ok(r) => relative_in(value@, windows) == Ok::<Seq<char>, ()>(r@),
            Err(e) => {
                &&& relative_in(value@, windows) is Err
                &&& escapes_in(value@, windows) ==> is_escape_error(e)
                &&& !escapes_in(value@, windows) ==> is_empty_path_error(e)
            },
        },
{
    let (prefix, body) = split_path(value, windows);
    if !prefix.as_str().is_empty() {
        return Err(error_of(
            ErrorCode::PathOutsideScope,
            "照片相对路径试图离开输出目录。",
            "请重新扫描照片目录并生成写入计划。",
            true,
        ));
    }
    assert(prefix_len(value@, windows) == 0);
    match safe_relative_generic(body.as_str()) {
        Err(e) => Err(e),
        Ok(r) => Ok(native_string(r.as_str(), windows)),
    }
}

/// `dir` extended by the relative path `rel` (`Path::join`): on Windows with `\`, and with no
/// separator after a bare drive.
pub open spec fn joined_in(dir: Seq<char>, rel: Seq<char>, windows: bool) -> Seq<char> {
    if !windows {
        joined_path(dir, rel)
    } else if dir.len() == 0 {
        rel
    } else if is_separator_in(dir.last(), true) || (dir.len() == 2 && has_drive(dir, true)) {
        dir + rel
    } else {
        dir.push('\\') + rel
    }
}

/// Appends a relative path to a directory (see `joined_in`).
pub fn join_path(dir: &str, rel: &str, windows: bool) -> (out: String)
    ensures
        out@ == joined_in(dir@, rel@, windows),
{
    if !windows {
        return join_generic(dir, rel);
    }
    let d = chars_of(dir);
    let n = d.len();
    let mut out = dir.to_owned();
    if n > 0 {
        let last = d[n - 1];
        let bare_drive = n == 2 && d[1] == ':' && ((d[0] >= 'a' && d[0] <= 'z') || (d[0] >= 'A' && d[0] <= 'Z'));
        if !(last == '/' || last == '\\' || bare_drive) {
            crate::text::push_char(&mut out, '\\');
        }
    }
    crate::text::push_str(&mut out, rel);
    out
}

/// Two letters that are the same but for ASCII case.
pub open spec fn same_letter_ignoring_case(a: char, b: char) -> bool {
    a == b || (is_drive_letter(a) && is_drive_letter(b) && ((a as int) - (b as int) == 32 || (b as int) - (a as int) == 32))
}

/// Two path prefixes name the same thing: drives compare their letters without regard to
/// case; other prefixes compare as written, with `/` for every separator.
pub open spec fn same_prefix_text(a: Seq<char>, b: Seq<char>) -> bool {
    if a.len() == 2 && b.len() == 2 && a[1] == ':' && b[1] == ':' && is_drive_letter(a[0]) && is_drive_letter(b[0]) {
        same_letter_ignoring_case(a[0], b[0])
    } else if a.len() == 6 && b.len() == 6 && is_verbatim_disk(a) && is_verbatim_disk(b) {
        same_letter_ignoring_case(a[4], b[4])
    } else {
        forward_slashes(a) == forward_slashes(b)
    }
}

fn verbatim_disk_at(c: &Vec<char>) -> (b: bool)
    ensures
        b == is_verbatim_disk(c@),
{
    c.len() >= 6 && c[0] == '\\' && c[1] == '\\' && c[2] == '?' && c[3] == '\\'
        && ((c[4] >= 'a' && c[4] <= 'z') || (c[4] >= 'A' && c[4] <= 'Z')) && c[5] == ':'
        && (c.len() == 6 || c[6] == '\\')
}

fn same_prefix(a: &str, b: &str) -> (eq: bool)
    ensures
        eq == same_prefix_text(a@, b@),
{
    let ac = chars_of(a);
    let bc = chars_of(b);
    if ac.len() == 2 && bc.len() == 2 && ac[1] == ':' && bc[1] == ':'
        && ((ac[0] >= 'a' && ac[0] <= 'z') || (ac[0] >= 'A' && ac[0] <= 'Z'))
        && ((bc[0] >= 'a' && bc[0] <= 'z') || (bc[0] >= 'A' && bc[0] <= 'Z')) {
        let x = ac[0] as u32;
        let y = bc[0] as u32;
        return x == y || x + 32 == y || y + 32 == x;
    }
    if ac.len() == 6 && bc.len() == 6 && verbatim_disk_at(&ac) && verbatim_disk_at(&bc) {
        let x = ac[4] as u32;
        let y = bc[4] as u32;
        return x == y || x + 32 == y || y + 32 == x;
    }
    chars_equal(&forward_chars(a), &forward_chars(b))
}

/// `Path::starts_with` on the platform: the same prefix, and the components of `base`'s body
/// begin those of `path`'s body.
pub open spec fn starts_with_in(path: Seq<char>, base: Seq<char>, windows: bool) -> bool {
    same_prefix_text(path_prefix(path, windows), path_prefix(base, windows))
        && starts_with_path(path_body(path, windows), path_body(base, windows))
}

/// Component-wise prefix test on the platform (see `starts_with_in`).
pub fn path_starts_with(path: &str, base: &str, windows: bool) -> (b: bool)
    ensures
        b == starts_with_in(path@, base@, windows),
{
    let (pp, pb) = split_path(path, windows);
    let (bp, bb) = split_path(base, windows);
    same_prefix(pp.as_str(), bp.as_str()) && starts_with_generic(pb.as_str(), bb.as_str())
}

/// `Path` equality on the platform: the same prefix and the same components.
pub open spec fn same_in(a: Seq<char>, b: Seq<char>, windows: bool) -> bool {
    same_prefix_text(path_prefix(a, windows), path_prefix(b, windows))
        && same_path(path_body(a, windows), path_body(b, windows))
}

/// `Path` equality on the platform (see `same_in`).
pub fn paths_equal(a: &str, b: &str, windows: bool) -> (eq: bool)
    ensures
        eq == same_in(a@, b@, windows),
{
    let (ap, ab) = split_path(a, windows);
    let (bp, bb) = split_path(b, windows);
    same_prefix(ap.as_str(), bp.as_str()) && same_path_generic(ab.as_str(), bb.as_str())
}

/// The final name of a path on the platform (`Path::file_name`).
pub open spec fn file_name_in(s: Seq<char>, windows: bool) -> Option<Seq<char>> {
    file_name_of(path_body(s, windows))
}

/// The final name of a path, if it has one (see `file_name_in`).
pub fn file_name(path: &str, windows: bool) -> (name: Option<String>)
    ensures
        match name {
            Some(n) => file_name_in(path@, windows) == Some(n@),
            None => file_name_in(path@, windows) is None,
        },
{
    let (_, body) = split_path(path, windows);
    file_name_generic(body.as_str())
}

/// The extension of the final name of a path (`Path::extension`).
pub fn extension(path: &str, windows: bool) -> (ext: Option<String>)
    ensures
        match ext {
            Some(e) => file_name_in(path@, windows) is Some && extension_of_name(file_name_in(path@, windows)->Some_0) == Some(e@),
            None => file_name_in(path@, windows) is None || extension_of_name(file_name_in(path@, windows)->Some_0) is None,
        },
{
    let (_, body) = split_path(path, windows);
    extension_generic(body.as_str())
}

/// The stem of the final name of a path (`Path::file_stem`).
pub fn file_stem(path: &str, windows: bool) -> (stem: Option<String>)
    ensures
        match stem {
            Some(t) => file_name_in(path@, windows) is Some && stem_of_name(file_name_in(path@, windows)->Some_0) == t@,
            None => file_name_in(path@, windows) is None,
        },
{
    let (_, body) = split_path(path, windows);
    file_stem_generic(body.as_str())
}

/// `Path::strip_prefix` on the platform: with the same prefix, the rest of the body after
/// `base`'s components, written with the platform's separators.
pub open spec fn stripped_in(path: Seq<char>, base: Seq<char>, windows: bool) -> Option<Seq<char>> {
    if same_prefix_text(path_prefix(path, windows), path_prefix(base, windows)) {
        match stripped_path(path_body(path, windows), path_body(base, windows)) {
            Some(r) => Some(native_text(r, windows)),
            None => None,
        }
    } else {
        None
    }
}

/// Removes the prefix `base` from `path` (see `stripped_in`).
pub fn strip_path_prefix(path: &str, base: &str, windows: bool) -> (rest: Option<String>)
    ensures
        match rest {
            Some(r) => stripped_in(path@, base@, windows) == Some(r@),
            None => stripped_in(path@, base@, windows) is None,
        },
{
    let (pp, pb) = split_path(path, windows);
    let (bp, bb) = split_path(base, windows);
    if !same_prefix(pp.as_str(), bp.as_str()) {
        return None;
    }
    match strip_prefix_generic(pb.as_str(), bb.as_str()) {
        None => None,
        Some(r) => Some(native_string(r.as_str(), windows)),
    }
}

} // verus!
