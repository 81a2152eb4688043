//! Shader-source preprocessing: resolving the paths that import
//! directives name and turning one file's lines into the pieces — plain
//! text and imports — that the includer stitches together. Reading the
//! named files is the caller's business.

use vstd::prelude::*;

verus! {

/// The components of a path joined with slashes.
pub open spec fn spec_join(parts: Seq<Seq<char>>) -> Seq<char>
    decreases parts.len(),
{
    if parts.len() == 0 {
        Seq::empty()
    } else if parts.len() == 1 {
        parts[0]
    } else {
        spec_join(parts.drop_last()) + seq!['/'] + parts.last()
    }
}

/// The text of a preprocessing failure: the file, the one-based line, and
/// the reason.
pub open spec fn spec_error_message(path: Seq<Seq<char>>, line: int, reason: Seq<char>) -> Seq<
    char,
> {
    spec_join(path) + seq![':'] + crate::util::spec_decimal(line + 1) + seq![':', ' '] + reason
}

/// The text of a preprocessing failure at a line of a file.
pub fn error(path: &Vec<String>, line: usize, reason: &str) -> (r: String)
    requires
        line < usize::MAX,
        line < u64::MAX,
    ensures
        r@ == spec_error_message(path.deep_view(), line as int, reason@),
{
    proof {
        reveal_strlit(":");
        reveal_strlit(": ");
        reveal_strlit("/");
    }
    let mut s = String::new();
    let mut i: usize = 0;
    while i < path.len()
        invariant
            i <= path@.len(),
            s@ == spec_join(path.deep_view().take(i as int)),
        decreases path@.len() - i,
    {
        if i > 0 {
            s.append("/");
        }
        s.append(path[i].as_str());
        proof {
            reveal_strlit("/");
            assert(path.deep_view().take(i + 1).drop_last() =~= path.deep_view().take(i as int));
            assert(path.deep_view().take(i + 1).last() == path@[i as int]@);
            if i > 0 {
                assert(s@ =~= spec_join(path.deep_view().take(i + 1)));
            } else {
                assert(s@ =~= spec_join(path.deep_view().take(1)));
            }
        }
        i += 1;
    }
    proof {
        assert(path.deep_view().take(path@.len() as int) =~= path.deep_view());
    }
    s.append(":");
    let num = crate::util::u64_decimal((line + 1) as u64);
    s.append(num.as_str());
    s.append(": ");
    s.append(reason);
    proof {
        assert(s@ =~= spec_error_message(path.deep_view(), line as int, reason@));
    }
    s
}

/// A failure message annotated with the file it arose in.
pub open spec fn spec_annotated(message: Seq<char>, path: Seq<char>) -> Seq<char> {
    message + " (in "@ + path + seq![')']
}

/// Passes a success through and annotates a failure message with the file
/// it arose in.
pub fn annotate_path<T>(path: &str, r: Result<T, String>) -> (ret: Result<T, String>)
    ensures
        r is Ok ==> ret is Ok && ret->Ok_0 == r->Ok_0,
        r is Err ==> ret is Err && (ret->Err_0)@ == spec_annotated((r->Err_0)@, path@),
{
    proof {
        reveal_strlit(" (in ");
        reveal_strlit(")");
    }
    match r {
        Ok(v) => Ok(v),
        Err(e) => {
            let mut s = e;
            s.append(" (in ");
            s.append(path);
            s.append(")");
            proof {
                assert(s@ =~= spec_annotated(e@, path@));
            }
            Err(s)
        },
    }
}

/// The pieces of a path string, split at every slash; empty components
/// stand for the leading root or repeated slashes.
pub open spec fn spec_split_slash(s: Seq<char>) -> Seq<Seq<char>>
    decreases s.len(),
{
    if s.len() == 0 {
        seq![Seq::<char>::empty()]
    } else if s[0] == '/' {
        seq![Seq::<char>::empty()] + spec_split_slash(s.drop_first())
    } else {
        let rest = spec_split_slash(s.drop_first());
        seq![seq![s[0]] + rest[0]] + rest.drop_first()
    }
}

/// The pieces of a path string, split at every slash.
fn split_slash(s: &str) -> (r: Vec<String>)
    ensures
        r.deep_view() == spec_split_slash(s@),
        r@.len() >= 1,
    decreases s@.len(),
{
    let n = s.unicode_len();
    if n == 0 {
        let mut parts: Vec<String> = Vec::new();
        parts.push(String::new());
        proof {
            assert(parts.deep_view() =~= spec_split_slash(s@));
        }
        parts
    } else if s.get_char(0) == '/' {
        let rest = s.substring_char(1, n);
        proof {
            assert(rest@ =~= s@.drop_first());
        }
        let mut parts = split_slash(rest);
        parts.insert(0, String::new());
        proof {
            assert(parts.deep_view() =~= spec_split_slash(s@));
        }
        parts
    } else {
        let rest = s.substring_char(1, n);
        proof {
            assert(rest@ =~= s@.drop_first());
        }
        let mut parts = split_slash(rest);
        let mut head = String::from_str(s.substring_char(0, 1));
        head.append(parts[0].as_str());
        proof {
            assert(head@ =~= seq![s@[0]] + spec_split_slash(s@.drop_first())[0]);
        }
        parts.set(0, head);
        proof {
            assert(parts.deep_view() =~= spec_split_slash(s@));
        }
        parts
    }
}

/// The directory after applying the first `k` path pieces to `acc`: an
/// empty leading piece roots the path, later empty pieces and `.` change
/// nothing, `..` climbs one level and fails at the root, and anything
/// else descends.
pub open spec fn spec_resolve(acc: Seq<Seq<char>>, pieces: Seq<Seq<char>>, k: int) -> Option<
    Seq<Seq<char>>,
>
    decreases k,
{
    if k <= 0 {
        Some(acc)
    } else {
        match spec_resolve(acc, pieces, k - 1) {
            None => None,
            Some(cur) => {
                let p = pieces[k - 1];
                if p.len() == 0 {
                    if k == 1 {
                        Some(Seq::empty())
                    } else {
                        Some(cur)
                    }
                } else if p == "."@ {
                    Some(cur)
                } else if p == ".."@ {
                    if cur.len() == 0 {
                        None
                    } else {
                        Some(cur.drop_last())
                    }
                } else {
                    Some(cur.push(p))
                }
            },
        }
    }
}

/// A failed resolution stays failed however many more pieces follow.
proof fn lemma_resolve_none(acc: Seq<Seq<char>>, pieces: Seq<Seq<char>>, k1: int, k2: int)
    requires
        0 <= k1 <= k2,
        spec_resolve(acc, pieces, k1) is None,
    ensures
        spec_resolve(acc, pieces, k2) is None,
    decreases k2,
{
    if k1 < k2 {
        lemma_resolve_none(acc, pieces, k1, k2 - 1);
    }
}

/// The directory the path names, starting beside the including file:
/// slash-separated pieces applied to the includer's directory, a leading
/// slash rooting the path, `.` staying put, and `..` climbing — one step
/// past the root is the one failure, reported against the including file
/// and line.
pub fn resolve_path(in_file: &Vec<String>, line: usize, path: &str) -> (r: Result<
    Vec<String>,
    String,
>)
    requires
        in_file@.len() >= 1,
        line < usize::MAX,
    ensures
        r is Ok ==> spec_resolve(
            in_file.deep_view().drop_last(),
            spec_split_slash(path@),
            spec_split_slash(path@).len() as int,
        ) == Some(r->Ok_0.deep_view()),
        r is Err ==> spec_resolve(
            in_file.deep_view().drop_last(),
            spec_split_slash(path@),
            spec_split_slash(path@).len() as int,
        ) is None && (r->Err_0)@ == spec_error_message(
            in_file.deep_view(),
            line as int,
            "navigating to parent of root is invalid"@,
        ),
{
    let mut acc: Vec<String> = Vec::new();
    let mut i: usize = 0;
    while i < in_file.len() - 1
        invariant
            in_file@.len() >= 1,
            i <= in_file@.len() - 1,
            acc@.len() == i,
            acc.deep_view() =~= in_file.deep_view().drop_last().take(i as int),
        decreases in_file@.len() - i,
    {
        let ghost prev = acc.deep_view();
        acc.push(in_file[i].clone());
        proof {
            assert(acc.deep_view().len() == i + 1);
            assert forall|j: int|
                0 <= j < i + 1 implies acc.deep_view()[j] == in_file.deep_view().drop_last().take(
                i + 1,
            )[j] by {
                if j < i {
                    assert(acc.deep_view()[j] == acc@[j].deep_view());
                    assert(acc@[j] == acc@.subrange(0, i as int)[j]);
                    assert(prev[j] == in_file.deep_view().drop_last().take(i as int)[j]);
                } else {
                    assert(acc.deep_view()[j] == acc@[i as int].deep_view());
                    assert(acc@[i as int] == in_file@[i as int]);
                }
            }
            assert(acc.deep_view() =~= in_file.deep_view().drop_last().take(i + 1));
        }
        i += 1;
    }
    proof {
        assert(acc.deep_view() =~= in_file.deep_view().drop_last());
    }
    let pieces = split_slash(path);
    let ghost pieces_dv = spec_split_slash(path@);
    let ghost start = in_file.deep_view().drop_last();
    let mut k: usize = 0;
    while k < pieces.len()
        invariant
            k <= pieces@.len(),
            pieces.deep_view() == pieces_dv,
            pieces_dv == spec_split_slash(path@),
            line < usize::MAX,
            in_file@.len() >= 1,
            start == in_file.deep_view().drop_last(),
            spec_resolve(start, pieces_dv, k as int) == Some(acc.deep_view()),
        decreases pieces@.len() - k,
    {
        proof {
            reveal_strlit(".");
            reveal_strlit("..");
        }
        let p = &pieces[k];
        if p.as_str().unicode_len() == 0 {
            if k == 0 {
                acc = Vec::new();
                proof {
                    assert(acc.deep_view() =~= Seq::<Seq<char>>::empty());
                }
            }
        } else if crate::util::str_eq(p.as_str(), ".") {
        } else if crate::util::str_eq(p.as_str(), "..") {
            if acc.len() == 0 {
                proof {
                    assert(pieces_dv[k as int] == p@);
                    assert(p@ == ".."@);
                    assert(p@.len() == 2);
                    assert(spec_resolve(start, pieces_dv, k as int)->Some_0.len() == 0);
                    assert(spec_resolve(start, pieces_dv, k + 1) is None);
                    lemma_resolve_none(start, pieces_dv, k + 1, pieces_dv.len() as int);
                }
                let msg = error(in_file, line, "navigating to parent of root is invalid");
                proof {
                    assert(msg@ == spec_error_message(
                        in_file.deep_view(),
                        line as int,
                        "navigating to parent of root is invalid"@,
                    ));
                    assert(spec_resolve(
                        in_file.deep_view().drop_last(),
                        spec_split_slash(path@),
                        spec_split_slash(path@).len() as int,
                    ) is None);
                }
                return Err(msg);
            }
            acc.pop();
            proof {
                assert(acc.deep_view() =~= spec_resolve(start, pieces_dv, k + 1)->Some_0);
            }
        } else {
            acc.push(p.clone());
            proof {
                assert(acc.deep_view() =~= spec_resolve(start, pieces_dv, k + 1)->Some_0);
            }
        }
        k += 1;
    }
    Ok(acc)
}

/// One piece of a preprocessed shader file: literal text to emit, or the
/// resolved directory path of a file to pull in at this point.
#[derive(Clone, Debug, PartialEq, Eq)]
pub enum ShaderPiece {
    Text(String),
    Include(Vec<String>),
}

/// The mathematical content of a shader piece.
pub ghost enum PieceView {
    Text(Seq<char>),
    Include(Seq<Seq<char>>),
}

/// The content of a shader piece.
pub open spec fn piece_view(p: ShaderPiece) -> PieceView {
    match p {
        ShaderPiece::Text(s) => PieceView::Text(s@),
        ShaderPiece::Include(v) => PieceView::Include(v.deep_view()),
    }
}

/// A blank: the spaces and tabs words are split at.
pub open spec fn is_blank(c: char) -> bool {
    c == ' ' || c == '\t' || c == '\r'
}

/// The pieces of a line, split at every blank, empties included.
pub open spec fn spec_split_blank(s: Seq<char>) -> Seq<Seq<char>>
    decreases s.len(),
{
    if s.len() == 0 {
        seq![Seq::<char>::empty()]
    } else if is_blank(s[0]) {
        seq![Seq::<char>::empty()] + spec_split_blank(s.drop_first())
    } else {
        let rest = spec_split_blank(s.drop_first());
        seq![seq![s[0]] + rest[0]] + rest.drop_first()
    }
}

/// A list of pieces with the empty ones dropped.
pub open spec fn spec_drop_empty(parts: Seq<Seq<char>>) -> Seq<Seq<char>>
    decreases parts.len(),
{
    if parts.len() == 0 {
        Seq::empty()
    } else {
        spec_drop_empty(parts.drop_last()) + (if parts.last().len() == 0 {
            Seq::<Seq<char>>::empty()
        } else {
            seq![parts.last()]
        })
    }
}

/// The words of a line: the non-empty runs between blanks.
pub open spec fn spec_words(s: Seq<char>) -> Seq<Seq<char>> {
    spec_drop_empty(spec_split_blank(s))
}

/// The value the flag table holds for a key: the first binding's.
pub open spec fn spec_flag_value(flags: Seq<(Seq<char>, Seq<char>)>, key: Seq<char>, k: int)
    -> Option<Seq<char>>
    decreases k,
{
    if k <= 0 {
        None
    } else if spec_flag_value(flags, key, k - 1) is Some {
        spec_flag_value(flags, key, k - 1)
    } else if flags[k - 1].0 == key {
        Some(flags[k - 1].1)
    } else {
        None
    }
}

/// What one line of a shader file asks for: its text with a newline back,
/// a file to import, nothing (an import whose condition fails), or a
/// malformed directive.
pub ghost enum LineAction {
    Keep(Seq<char>),
    Import(Seq<char>),
    Skip,
    Bad,
}

/// What one line of a shader file asks for. A line not starting the
/// directive mark passes through with its newline; `#import` names a file;
/// `#importif` names a flag, the value it must hold, and the file; any
/// other directive is malformed.
pub open spec fn spec_line_action(line: Seq<char>, flags: Seq<(Seq<char>, Seq<char>)>)
    -> LineAction {
    if line.len() == 0 || line[0] != '#' {
        LineAction::Keep(line + seq!['\n'])
    } else {
        let w = spec_words(line);
        if w.len() >= 1 && w[0] == "#import"@ {
            if w.len() >= 2 {
                LineAction::Import(w[1])
            } else {
                LineAction::Bad
            }
        } else if w.len() >= 1 && w[0] == "#importif"@ {
            if w.len() >= 4 {
                if spec_flag_value(flags, w[1], flags.len() as int) == Some(w[2]) {
                    LineAction::Import(w[3])
                } else {
                    LineAction::Skip
                }
            } else {
                LineAction::Bad
            }
        } else {
            LineAction::Bad
        }
    }
}

/// The pieces the first `k` lines of a file preprocess to, against the
/// including file's directory, or nothing once any line is malformed or
/// names an unresolvable path.
pub open spec fn spec_pre_process(
    lines: Seq<Seq<char>>,
    in_dir: Seq<Seq<char>>,
    flags: Seq<(Seq<char>, Seq<char>)>,
    k: int,
) -> Option<Seq<PieceView>>
    decreases k,
{
    if k <= 0 {
        Some(Seq::empty())
    } else {
        match spec_pre_process(lines, in_dir, flags, k - 1) {
            None => None,
            Some(ps) => match spec_line_action(lines[k - 1], flags) {
                LineAction::Keep(t) => Some(ps.push(PieceView::Text(t))),
                LineAction::Skip => Some(ps),
                LineAction::Bad => None,
                LineAction::Import(p) => match spec_resolve(
                    in_dir,
                    spec_split_slash(p),
                    spec_split_slash(p).len() as int,
                ) {
                    None => None,
                    Some(d) => Some(ps.push(PieceView::Include(d))),
                },
            },
        }
    }
}

/// A failed run of lines stays failed however many more follow.
proof fn lemma_pre_process_none(
    lines: Seq<Seq<char>>,
    in_dir: Seq<Seq<char>>,
    flags: Seq<(Seq<char>, Seq<char>)>,
    k1: int,
    k2: int,
)
    requires
        0 <= k1 <= k2,
        spec_pre_process(lines, in_dir, flags, k1) is None,
    ensures
        spec_pre_process(lines, in_dir, flags, k2) is None,
    decreases k2,
{
    if k1 < k2 {
        lemma_pre_process_none(lines, in_dir, flags, k1, k2 - 1);
    }
}

/// The pieces of a line, split at every blank.
fn split_blank(s: &str) -> (r: Vec<String>)
    ensures
        r.deep_view() == spec_split_blank(s@),
        r@.len() >= 1,
    decreases s@.len(),
{
    let n = s.unicode_len();
    if n == 0 {
        let mut parts: Vec<String> = Vec::new();
        parts.push(String::new());
        proof {
            assert(parts.deep_view() =~= spec_split_blank(s@));
        }
        parts
    } else {
        let c = s.get_char(0);
        let rest = s.substring_char(1, n);
        proof {
            assert(rest@ =~= s@.drop_first());
        }
        let mut parts = split_blank(rest);
        if c == ' ' || c == '\t' || c == '\r' {
            parts.insert(0, String::new());
            proof {
                assert(parts.deep_view() =~= spec_split_blank(s@));
            }
            parts
        } else {
            let mut head = String::from_str(s.substring_char(0, 1));
            head.append(parts[0].as_str());
            proof {
                assert(head@ =~= seq![s@[0]] + spec_split_blank(s@.drop_first())[0]);
            }
            parts.set(0, head);
            proof {
                assert(parts.deep_view() =~= spec_split_blank(s@));
            }
            parts
        }
    }
}

/// The words of a line: the non-empty runs between blanks.
fn words_of(s: &str) -> (r: Vec<String>)
    ensures
        r.deep_view() == spec_words(s@),
{
    let parts = split_blank(s);
    let mut out: Vec<String> = Vec::new();
    let mut i: usize = 0;
    while i < parts.len()
        invariant
            i <= parts@.len(),
            parts.deep_view() == spec_split_blank(s@),
            out.deep_view() =~= spec_drop_empty(parts.deep_view().take(i as int)),
        decreases parts@.len() - i,
    {
        proof {
            assert(parts.deep_view().take(i + 1).drop_last() =~= parts.deep_view().take(i as int));
            assert(parts.deep_view().take(i + 1).last() == parts@[i as int]@);
        }
        if parts[i].as_str().unicode_len() > 0 {
            out.push(parts[i].clone());
            proof {
                assert(out.deep_view() =~= spec_drop_empty(parts.deep_view().take(i + 1)));
            }
        } else {
            proof {
                assert(out.deep_view() =~= spec_drop_empty(parts.deep_view().take(i + 1)));
            }
        }
        i += 1;
    }
    proof {
        assert(parts.deep_view().take(parts@.len() as int) =~= parts.deep_view());
    }
    out
}

/// The value the flag table holds for a key, if any.
fn flag_value<'a>(flags: &'a Vec<(String, String)>, key: &str) -> (r: Option<&'a String>)
    ensures
        match r {
            Some(v) => spec_flag_value(flags.deep_view(), key@, flags@.len() as int) == Some(v@),
            None => spec_flag_value(flags.deep_view(), key@, flags@.len() as int) is None,
        },
{
    let mut i: usize = 0;
    while i < flags.len()
        invariant
            i <= flags@.len(),
            spec_flag_value(flags.deep_view(), key@, i as int) is None,
        decreases flags@.len() - i,
    {
        if crate::util::str_eq(flags[i].0.as_str(), key) {
            proof {
                assert(flags.deep_view()[i as int].0 == key@);
                assert(spec_flag_value(flags.deep_view(), key@, i + 1) == Some(
                    flags.deep_view()[i as int].1,
                ));
            }
            assert(spec_flag_value(flags.deep_view(), key@, flags@.len() as int) == Some(
                flags.deep_view()[i as int].1,
            )) by {
                lemma_flag_value_found(flags.deep_view(), key@, i + 1, flags@.len() as int);
            }
            return Some(&flags[i].1);
        }
        proof {
            assert(flags.deep_view()[i as int].0 != key@);
        }
        i += 1;
    }
    None
}

/// A found flag value stays found with more of the table.
proof fn lemma_flag_value_found(
    flags: Seq<(Seq<char>, Seq<char>)>,
    key: Seq<char>,
    k1: int,
    k2: int,
)
    requires
        0 <= k1 <= k2,
        spec_flag_value(flags, key, k1) is Some,
    ensures
        spec_flag_value(flags, key, k2) == spec_flag_value(flags, key, k1),
    decreases k2,
{
    if k1 < k2 {
        lemma_flag_value_found(flags, key, k1, k2 - 1);
    }
}

/// Preprocesses one file's lines into pieces: plain lines pass through
/// with their newlines, `#import` and satisfied `#importif` directives
/// become resolved include paths, and a malformed directive or an
/// unresolvable path fails with a message naming the file and line.
pub fn pre_process(
    lines: &Vec<String>,
    in_file: &Vec<String>,
    flags: &Vec<(String, String)>,
) -> (r: Result<Vec<ShaderPiece>, String>)
    requires
        in_file@.len() >= 1,
        lines@.len() < usize::MAX,
    ensures
        r is Ok ==> spec_pre_process(
            lines.deep_view(),
            in_file.deep_view().drop_last(),
            flags.deep_view(),
            lines@.len() as int,
        ) == Some(r->Ok_0@.map_values(|p: ShaderPiece| piece_view(p))),
        r is Err ==> spec_pre_process(
            lines.deep_view(),
            in_file.deep_view().drop_last(),
            flags.deep_view(),
            lines@.len() as int,
        ) is None,
{
    let mut out: Vec<ShaderPiece> = Vec::new();
    let ghost lines_dv = lines.deep_view();
    let ghost in_dir = in_file.deep_view().drop_last();
    let ghost flags_dv = flags.deep_view();
    let mut i: usize = 0;
    while i < lines.len()
        invariant
            i <= lines@.len(),
            lines@.len() < usize::MAX,
            in_file@.len() >= 1,
            lines_dv == lines.deep_view(),
            in_dir == in_file.deep_view().drop_last(),
            flags_dv == flags.deep_view(),
            spec_pre_process(lines_dv, in_dir, flags_dv, i as int) == Some(
                out@.map_values(|p: ShaderPiece| piece_view(p)),
            ),
        decreases lines@.len() - i,
    {
        proof {
            reveal_strlit("#import");
            reveal_strlit("#importif");
            reveal_strlit("\n");
        }
        let line = &lines[i];
        let n = line.as_str().unicode_len();
        if n == 0 || line.as_str().get_char(0) != '#' {
            let mut text = line.clone();
            text.append("\n");
            out.push(ShaderPiece::Text(text));
            proof {
                assert(text@ =~= lines_dv[i as int] + seq!['\n']);
                assert(out@.map_values(|p: ShaderPiece| piece_view(p)) =~= spec_pre_process(
                    lines_dv,
                    in_dir,
                    flags_dv,
                    i + 1,
                )->Some_0);
            }
        } else {
            let words = words_of(line.as_str());
            let import_path: Option<&String> = if words.len() >= 1 && crate::util::str_eq(
                words[0].as_str(),
                "#import",
            ) {
                if words.len() >= 2 {
                    Some(&words[1])
                } else {
                    proof {
                        lemma_pre_process_none(lines_dv, in_dir, flags_dv, i + 1, lines_dv.len() as int);
                    }
                    return Err(error(in_file, i, "expected path to import"));
                }
            } else if words.len() >= 1 && crate::util::str_eq(words[0].as_str(), "#importif") {
                if words.len() < 2 {
                    proof {
                        lemma_pre_process_none(lines_dv, in_dir, flags_dv, i + 1, lines_dv.len() as int);
                    }
                    return Err(error(in_file, i, "expected key to check"));
                }
                if words.len() < 3 {
                    proof {
                        lemma_pre_process_none(lines_dv, in_dir, flags_dv, i + 1, lines_dv.len() as int);
                    }
                    return Err(error(in_file, i, "expected value to compare"));
                }
                if words.len() < 4 {
                    proof {
                        lemma_pre_process_none(lines_dv, in_dir, flags_dv, i + 1, lines_dv.len() as int);
                    }
                    return Err(error(in_file, i, "expected path to import"));
                }
                let matches_flag = match flag_value(flags, words[1].as_str()) {
                    Some(v) => crate::util::str_eq(v.as_str(), words[2].as_str()),
                    None => false,
                };
                if matches_flag {
                    Some(&words[3])
                } else {
                    proof {
                        assert(out@.map_values(|p: ShaderPiece| piece_view(p)) =~= spec_pre_process(
                            lines_dv,
                            in_dir,
                            flags_dv,
                            i + 1,
                        )->Some_0);
                    }
                    None
                }
            } else {
                proof {
                    lemma_pre_process_none(lines_dv, in_dir, flags_dv, i + 1, lines_dv.len() as int);
                }
                return Err(error(in_file, i, "unrecognized directive"));
            };
            if let Some(p) = import_path {
                match resolve_path(in_file, i, p.as_str()) {
                    Ok(dir) => {
                        out.push(ShaderPiece::Include(dir));
                        proof {
                            assert(out@.map_values(|p2: ShaderPiece| piece_view(p2))
                                =~= spec_pre_process(lines_dv, in_dir, flags_dv, i + 1)->Some_0);
                        }
                    },
                    Err(e) => {
                        proof {
                            lemma_pre_process_none(
                                lines_dv,
                                in_dir,
                                flags_dv,
                                i + 1,
                                lines_dv.len() as int,
                            );
                        }
                        return Err(e);
                    },
                }
            }
        }
        i += 1;
    }
    Ok(out)
}

} // verus!