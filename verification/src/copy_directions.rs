//! Parsing of directive lines of the form `from:to[:skip[,skip...]]` into
//! validated copy directions.
//!
//! A line names a source root, a destination root, and optionally a
//! comma-separated list of skip patterns.  Destinations must be distinct
//! across lines: two directions writing into the same tree would race.

use vstd::prelude::*;
use vstd::string::*;
use crate::pattern::{pattern_compiles, texts_of, Pattern};

verus! {

/// One validated direction: copy the tree under `from` into the tree under
/// `to`, skipping every file whose path one of `skips` matches.
#[derive(Debug)]
pub struct CopyDirection {
    pub from: String,
    pub to: String,
    pub skips: Vec<Pattern>,
}

/// Why a list of directive lines was rejected; each variant names the
/// offending line (and pattern, where one is at fault).
#[derive(Debug)]
pub enum FileParseError {
    /// The line has no `:`, so no destination path.
    MissingToPath { line: usize },
    /// The line's destination path is already claimed by an earlier line.
    DuplicateToPath { line: usize },
    /// A skip pattern on the line is not a valid regular expression.
    InvalidSkipPattern { line: usize, pattern: String },
}

impl FileParseError {
    /// The index of the offending line.
    pub open spec fn line_no(&self) -> usize {
        match self {
            FileParseError::MissingToPath { line } => *line,
            FileParseError::DuplicateToPath { line } => *line,
            FileParseError::InvalidSkipPattern { line, .. } => *line,
        }
    }
}

/// The views of a list of strings.
pub open spec fn str_views(v: Seq<String>) -> Seq<Seq<char>> {
    v.map_values(|s: String| s@)
}

/// Splitting a character sequence at every occurrence of `sep`, keeping
/// empty pieces; the empty sequence yields one empty piece.
pub open spec fn spec_split(s: Seq<char>, sep: char) -> Seq<Seq<char>>
    decreases s.len(),
{
    if s.len() == 0 {
        seq![Seq::<char>::empty()]
    } else {
        let init = spec_split(s.drop_last(), sep);
        if s.last() == sep {
            init.push(Seq::empty())
        } else {
            init.update(init.len() - 1, init.last().push(s.last()))
        }
    }
}

/// The pieces of the split that are not empty, in order.
pub open spec fn nonempty_pieces(ps: Seq<Seq<char>>) -> Seq<Seq<char>>
    decreases ps.len(),
{
    if ps.len() == 0 {
        Seq::empty()
    } else if ps.last().len() == 0 {
        nonempty_pieces(ps.drop_last())
    } else {
        nonempty_pieces(ps.drop_last()).push(ps.last())
    }
}

/// The `:`-separated pieces of a directive line.
pub open spec fn line_pieces(line: Seq<char>) -> Seq<Seq<char>> {
    spec_split(line, ':')
}

/// Whether the line has a destination piece at all.
pub open spec fn line_has_to(line: Seq<char>) -> bool {
    line_pieces(line).len() >= 2
}

/// The line's source root: everything before the first `:`.
pub open spec fn line_from(line: Seq<char>) -> Seq<char> {
    line_pieces(line)[0]
}

/// The line's destination root: between the first and the second `:`.
pub open spec fn line_to(line: Seq<char>) -> Seq<char> {
    line_pieces(line)[1]
}

/// The line's skip pattern texts: the non-empty comma-separated pieces of
/// the third `:`-piece, if there is one.  Pieces past the third are ignored.
pub open spec fn line_skips(line: Seq<char>) -> Seq<Seq<char>> {
    if line_pieces(line).len() >= 3 {
        nonempty_pieces(spec_split(line_pieces(line)[2], ','))
    } else {
        Seq::empty()
    }
}

/// Whether line `i`'s destination differs from every earlier line's.
pub open spec fn to_is_fresh(data: Seq<String>, i: int) -> bool {
    forall|j: int| 0 <= j < i ==> line_to(data[j]@) != line_to(data[i]@)
}

/// Whether every skip pattern of the line is a valid regular expression.
pub open spec fn skips_compile(line: Seq<char>) -> bool {
    forall|k: int| 0 <= k < line_skips(line).len() ==> pattern_compiles(line_skips(line)[k])
}

/// Whether line `i` parses without fault given the lines before it.
pub open spec fn line_clean(data: Seq<String>, i: int) -> bool {
    line_has_to(data[i]@) && to_is_fresh(data, i) && skips_compile(data[i]@)
}

/// The non-empty pieces of a prefix stand, in order, at the front of the
/// non-empty pieces of the whole.
proof fn lemma_nonempty_pieces_prefix(ps: Seq<Seq<char>>, k: int)
    requires
        0 <= k <= ps.len(),
    ensures
        nonempty_pieces(ps.take(k)).len() <= nonempty_pieces(ps).len(),
        forall|m: int|
            0 <= m < nonempty_pieces(ps.take(k)).len() ==> nonempty_pieces(ps)[m]
                == nonempty_pieces(ps.take(k))[m],
    decreases ps.len() - k,
{
    if k == ps.len() {
        assert(ps.take(k) =~= ps);
    } else {
        assert(ps.take(k + 1).drop_last() =~= ps.take(k));
        lemma_nonempty_pieces_prefix(ps, k + 1);
    }
}

/// Splits a string at every occurrence of `sep`, keeping empty pieces.
#[verifier::loop_isolation(false)]
pub fn split_line(s: &str, sep: char) -> (pieces: Vec<String>)
    ensures
        str_views(pieces@) == spec_split(s@, sep),
        pieces@.len() >= 1,
{
    let n = s.unicode_len();
    let mut pieces: Vec<String> = Vec::new();
    let mut start: usize = 0;
    let mut i: usize = 0;
    proof {
        assert(s@.take(0) =~= Seq::<char>::empty());
        assert(s@.subrange(0, 0) =~= Seq::<char>::empty());
        assert(spec_split(s@.take(0), sep) =~= str_views(pieces@).push(s@.subrange(0, 0)));
    }
    while i < n
        invariant
            start <= i <= n,
            spec_split(s@.take(i as int), sep) == str_views(pieces@).push(
                s@.subrange(start as int, i as int),
            ),
        decreases n - i,
    {
        proof {
            assert(s@.take(i + 1 as int).drop_last() =~= s@.take(i as int));
            assert(s@.take(i + 1 as int).last() == s@[i as int]);
        }
        let c = s.get_char(i);
        if c == sep {
            let piece = s.substring_char(start, i).to_owned();
            let ghost old_views = str_views(pieces@);
            pieces.push(piece);
            proof {
                assert(str_views(pieces@) =~= old_views.push(s@.subrange(
                    start as int,
                    i as int,
                )));
                assert(s@.subrange(i + 1 as int, i + 1 as int) =~= Seq::<char>::empty());
                assert(spec_split(s@.take(i + 1 as int), sep) =~= str_views(pieces@).push(
                    s@.subrange(i + 1 as int, i + 1 as int),
                ));
            }
            start = i + 1;
        } else {
            proof {
                let cur = s@.subrange(start as int, i as int);
                let split_now = spec_split(s@.take(i as int), sep);
                assert(split_now.last() == cur);
                assert(s@.subrange(start as int, i + 1 as int) =~= cur.push(s@[i as int]));
                assert(spec_split(s@.take(i + 1 as int), sep) =~= str_views(pieces@).push(
                    s@.subrange(start as int, i + 1 as int),
                ));
            }
        }
        i = i + 1;
    }
    let last = s.substring_char(start, n).to_owned();
    let ghost old_views = str_views(pieces@);
    pieces.push(last);
    proof {
        assert(s@.take(n as int) =~= s@);
        assert(str_views(pieces@) =~= old_views.push(s@.subrange(start as int, n as int)));
    }
    pieces
}

/// Keeps a piece only when it is non-empty, as a fresh string.
pub fn trim(v: &str) -> (r: Option<String>)
    ensures
        match r {
            Some(t) => v@.len() > 0 && t@ == v@,
            None => v@.len() == 0,
        },
{
    if v.unicode_len() == 0 {
        None
    } else {
        Some(v.to_owned())
    }
}

/// Parses directive lines into copy directions.
///
/// Succeeds exactly when every line has a destination piece, no destination
/// repeats an earlier one, and every skip pattern compiles; the error names
/// the first line at fault, earlier lines all being clean.
#[verifier::loop_isolation(false)]
#[verifier::rlimit(60)]
pub fn from_string_list(data: Vec<String>) -> (r: Result<Vec<CopyDirection>, FileParseError>)
    ensures
        (r is Ok) == (forall|i: int| 0 <= i < data@.len() ==> line_clean(data@, i)),
        r matches Ok(ds) ==> {
            &&& ds@.len() == data@.len()
            &&& forall|i: int|
                0 <= i < data@.len() ==> {
                    &&& (#[trigger] ds@[i]).from@ == line_from(data@[i]@)
                    &&& ds@[i].to@ == line_to(data@[i]@)
                    &&& texts_of(ds@[i].skips@) == line_skips(data@[i]@)
                }
        },
        r matches Err(e) ==> {
            &&& e.line_no() < data@.len()
            &&& forall|j: int| 0 <= j < e.line_no() ==> line_clean(data@, j)
        },
        r matches Err(FileParseError::MissingToPath { line }) ==> !line_has_to(
            data@[line as int]@,
        ),
        r matches Err(FileParseError::DuplicateToPath { line }) ==> line_has_to(
            data@[line as int]@,
        ) && !to_is_fresh(data@, line as int),
        r matches Err(FileParseError::InvalidSkipPattern { line, pattern }) ==> {
            &&& line_has_to(data@[line as int]@)
            &&& to_is_fresh(data@, line as int)
            &&& exists|k: int|
                {
                    &&& 0 <= k < line_skips(data@[line as int]@).len()
                    &&& pattern@ == line_skips(data@[line as int]@)[k]
                    &&& !pattern_compiles(#[trigger] line_skips(data@[line as int]@)[k])
                    &&& forall|k2: int|
                        0 <= k2 < k ==> pattern_compiles(line_skips(data@[line as int]@)[k2])
                }
        },
{
    let mut out: Vec<CopyDirection> = Vec::new();
    let mut i: usize = 0;
    while i < data.len()
        invariant
            i <= data@.len(),
            out@.len() == i,
            forall|j: int| 0 <= j < i ==> line_clean(data@, j),
            forall|j: int|
                0 <= j < i ==> {
                    &&& (#[trigger] out@[j]).from@ == line_from(data@[j]@)
                    &&& out@[j].to@ == line_to(data@[j]@)
                    &&& texts_of(out@[j].skips@) == line_skips(data@[j]@)
                },
        decreases data@.len() - i,
    {
        let pieces = split_line(data[i].as_str(), ':');
        assert(pieces@.len() == line_pieces(data@[i as int]@).len());
        if pieces.len() < 2 {
            assert(!line_clean(data@, i as int));
            return Err(FileParseError::MissingToPath { line: i });
        }
        assert(pieces@[0]@ == line_from(data@[i as int]@));
        assert(pieces@[1]@ == line_to(data@[i as int]@));
        let from = pieces[0].clone();
        let to = pieces[1].clone();
        let mut j: usize = 0;
        while j < out.len()
            invariant
                j <= out@.len(),
                forall|j2: int| 0 <= j2 < j ==> line_to(data@[j2]@) != line_to(data@[i as int]@),
            decreases out@.len() - j,
        {
            if out[j].to == to {
                proof {
                    assert(line_to(data@[j as int]@) == line_to(data@[i as int]@));
                    assert(!to_is_fresh(data@, i as int));
                    assert(!line_clean(data@, i as int));
                }
                return Err(FileParseError::DuplicateToPath { line: i });
            }
            j = j + 1;
        }
        assert(to_is_fresh(data@, i as int));
        let mut skips: Vec<Pattern> = Vec::new();
        if pieces.len() >= 3 {
            let sub = split_line(pieces[2].as_str(), ',');
            let ghost all_pieces = spec_split(pieces@[2 as int]@, ',');
            assert(all_pieces == str_views(sub@));
            assert(line_skips(data@[i as int]@) == nonempty_pieces(all_pieces));
            proof {
                assert(all_pieces.take(0) =~= Seq::<Seq<char>>::empty());
            }
            let mut k: usize = 0;
            while k < sub.len()
                invariant
                    k <= sub@.len(),
                    texts_of(skips@) == nonempty_pieces(all_pieces.take(k as int)),
                    forall|m: int|
                        0 <= m < texts_of(skips@).len() ==> pattern_compiles(
                            #[trigger] texts_of(skips@)[m],
                        ),
                decreases sub@.len() - k,
            {
                proof {
                    assert(all_pieces.take(k + 1 as int).drop_last() =~= all_pieces.take(k as int));
                    assert(all_pieces.take(k + 1 as int).last() == sub@[k as int]@);
                }
                match trim(sub[k].as_str()) {
                    None => {
                        assert(nonempty_pieces(all_pieces.take(k + 1 as int)) == texts_of(skips@));
                    },
                    Some(t) => {
                        proof {
                            assert(nonempty_pieces(all_pieces.take(k + 1 as int)) =~= nonempty_pieces(
                                all_pieces.take(k as int),
                            ).push(t@));
                            lemma_nonempty_pieces_prefix(all_pieces, k + 1);
                        }
                        match Pattern::new(t.clone()) {
                            Some(p) => {
                                let ghost old_texts = texts_of(skips@);
                                skips.push(p);
                                proof {
                                    assert(texts_of(skips@) =~= old_texts.push(t@));
                                }
                            },
                            None => {
                                proof {
                                    let m = texts_of(skips@).len() as int;
                                    let sk = line_skips(data@[i as int]@);
                                    assert(nonempty_pieces(all_pieces.take(k + 1 as int)).len()
                                        <= sk.len());
                                    assert(sk[m] == t@);
                                    assert(!pattern_compiles(sk[m]));
                                    assert(forall|k2: int|
                                        0 <= k2 < m ==> pattern_compiles(#[trigger] sk[k2]))
                                        by {
                                        assert(forall|k2: int|
                                            0 <= k2 < m ==> #[trigger] sk[k2] == texts_of(
                                                skips@,
                                            )[k2]);
                                    }
                                    assert(!skips_compile(data@[i as int]@));
                                    assert(!line_clean(data@, i as int));
                                    assert(exists|k: int|
                                        {
                                            &&& 0 <= k < line_skips(data@[i as int]@).len()
                                            &&& t@ == line_skips(data@[i as int]@)[k]
                                            &&& !pattern_compiles(
                                                #[trigger] line_skips(data@[i as int]@)[k],
                                            )
                                            &&& forall|k2: int|
                                                0 <= k2 < k ==> pattern_compiles(
                                                    line_skips(data@[i as int]@)[k2],
                                                )
                                        }) by {
                                        assert(0 <= m < line_skips(data@[i as int]@).len()
                                            && t@ == line_skips(data@[i as int]@)[m]
                                            && !pattern_compiles(line_skips(data@[i as int]@)[m])
                                            && forall|k2: int|
                                            0 <= k2 < m ==> pattern_compiles(
                                                line_skips(data@[i as int]@)[k2],
                                            ));
                                    }
                                }
                                let e = FileParseError::InvalidSkipPattern {
                                    line: i,
                                    pattern: t,
                                };
                                proof {
                                    let m = texts_of(skips@).len() as int;
                                    if let FileParseError::InvalidSkipPattern {
                                        line: l2,
                                        pattern: p2,
                                    } = &e {
                                        assert(*l2 == i);
                                        assert(exists|k: int|
                                            {
                                                &&& 0 <= k < line_skips(data@[*l2 as int]@).len()
                                                &&& p2@ == line_skips(data@[*l2 as int]@)[k]
                                                &&& !pattern_compiles(
                                                    #[trigger] line_skips(data@[*l2 as int]@)[k],
                                                )
                                                &&& forall|k2: int|
                                                    0 <= k2 < k ==> pattern_compiles(
                                                        line_skips(data@[*l2 as int]@)[k2],
                                                    )
                                            }) by {
                                            assert(0 <= m < line_skips(data@[*l2 as int]@).len()
                                                && p2@ == line_skips(data@[*l2 as int]@)[m]
                                                && !pattern_compiles(
                                                line_skips(data@[*l2 as int]@)[m],
                                            ) && forall|k2: int|
                                                0 <= k2 < m ==> pattern_compiles(
                                                    line_skips(data@[*l2 as int]@)[k2],
                                                ));
                                        }
                                    }
                                }
                                return Err(e);
                            },
                        }
                    },
                }
                k = k + 1;
            }
            proof {
                assert(all_pieces.take(sub@.len() as int) =~= all_pieces);
            }
        }
        assert(texts_of(skips@) == line_skips(data@[i as int]@));
        assert(line_clean(data@, i as int));
        out.push(CopyDirection { from, to, skips });
        i = i + 1;
    }
    Ok(out)
}

} // verus!
