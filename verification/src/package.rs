//! Package records and the parser for the device's package listing.
//!
//! Each listing line has the form `package:[<install-path>=]<package-id>`:
//! the `package:` prefix is dropped, the line is split at its *last* `=`,
//! and a line without `=` is all id with an empty path.

use vstd::prelude::*;
use vstd::string::StrSliceExecFns;

use crate::strutil::{
    find_char, has_prefix, lemma_find_char_is, lemma_rfind_char_is, rfind_char, str_has_prefix,
};

verus! {

/// One installed package: its identifier, the path of its installer on
/// the device (may be empty), and a display name once one has been
/// resolved.
#[derive(Debug)]
pub struct Package {
    pub id: String,
    pub path: String,
    pub name: Option<String>,
}

/// The mathematical value of a `Package`.
pub struct PackageV {
    pub id: Seq<char>,
    pub path: Seq<char>,
    pub name: Option<Seq<char>>,
}

impl View for Package {
    type V = PackageV;

    open spec fn view(&self) -> PackageV {
        PackageV {
            id: self.id@,
            path: self.path@,
            name: match self.name {
                Some(n) => Some(n@),
                None => None,
            },
        }
    }
}

impl Clone for Package {
    /// A copy with the same id, path and name.
    fn clone(&self) -> (r: Self)
        ensures
            r@ == self@,
    {
        Package {
            id: self.id.clone(),
            path: self.path.clone(),
            name: match &self.name {
                Some(n) => Some(n.clone()),
                None => None,
            },
        }
    }
}

impl PartialEq for Package {
    /// Packages are identified by id alone.
    fn eq(&self, other: &Self) -> (r: bool) {
        self.id == other.id
    }
}

impl Eq for Package {

}

impl vstd::std_specs::cmp::PartialEqSpecImpl for Package {
    open spec fn obeys_eq_spec() -> bool {
        true
    }

    open spec fn eq_spec(&self, other: &Self) -> bool {
        self.id@ == other.id@
    }
}

/// The value sequence of a package vector.
pub open spec fn pkgs_view(v: Seq<Package>) -> Seq<PackageV> {
    v.map_values(|p: Package| p@)
}

/// A listing piece with a trailing carriage return dropped.
pub open spec fn strip_cr(line: Seq<char>) -> Seq<char> {
    if line.len() > 0 && line.last() == '\r' {
        line.drop_last()
    } else {
        line
    }
}

/// A line with a leading `package:` dropped.
pub open spec fn strip_listing_prefix(line: Seq<char>) -> Seq<char> {
    if has_prefix(line, "package:"@) {
        line.skip("package:"@.len() as int)
    } else {
        line
    }
}

/// The record one listing line denotes: split at the last `=` into
/// path and id; without `=`, the whole remainder is the id and the
/// path is empty.
pub open spec fn spec_parse_line(line: Seq<char>) -> PackageV {
    let l = strip_listing_prefix(line);
    let k = rfind_char(l, '=');
    if k >= 0 {
        PackageV { id: l.skip(k + 1), path: l.take(k), name: None }
    } else {
        PackageV { id: l, path: Seq::empty(), name: None }
    }
}

/// The listing split at every newline; a final newline ends the last
/// piece rather than opening an empty one.
pub open spec fn split_lines(s: Seq<char>) -> Seq<Seq<char>>
    decreases s.len(),
{
    if s.len() == 0 {
        Seq::empty()
    } else {
        let i = find_char(s, '\n');
        if 0 <= i && i < s.len() {
            seq![s.take(i)] + split_lines(s.skip(i + 1))
        } else {
            seq![s]
        }
    }
}

/// The records denoted by a whole listing.
pub open spec fn spec_many_from(s: Seq<char>) -> Seq<PackageV> {
    split_lines(s).map_values(|l: Seq<char>| spec_parse_line(strip_cr(l)))
}

/// How one scanning step relates to the split: the piece up to the
/// next newline is the first line of the unscanned rest.
pub proof fn lemma_split_lines_step(s: Seq<char>, i: int, j: int)
    requires
        0 <= i <= j <= s.len(),
        i < s.len(),
        forall|k: int| i <= k < j ==> s[k] != '\n',
        j < s.len() ==> s[j] == '\n',
    ensures
        split_lines(s.skip(i)) == seq![s.subrange(i, j)] + (if j < s.len() {
            split_lines(s.skip(j + 1))
        } else {
            Seq::<Seq<char>>::empty()
        }),
{
    let t = s.skip(i);
    assert(t.len() == s.len() - i);
    assert forall|m: int| 0 <= m < j - i implies t[m] != '\n' by {
        assert(t[m] == s[m + i]);
    }
    if j < s.len() {
        assert(t[j - i] == s[j]);
    }
    lemma_find_char_is(t, '\n', j - i);
    if j < s.len() {
        assert(t.take(j - i) =~= s.subrange(i, j));
        assert(t.skip(j - i + 1) =~= s.skip(j + 1));
        assert(split_lines(t) == seq![t.take(j - i)] + split_lines(t.skip(j - i + 1)));
    } else {
        assert(t =~= s.subrange(i, j));
        assert(split_lines(t) == seq![t]);
        assert(seq![s.subrange(i, j)] + Seq::<Seq<char>>::empty() =~= seq![s.subrange(i, j)]);
    }
}

impl Package {
    /// Parse one listing piece into a record; the record's name is
    /// never set by parsing.
    pub fn from_line(line: &str) -> (r: Package)
        ensures
            r@ == spec_parse_line(strip_cr(line@)),
    {
        let len0 = line.unicode_len();
        let end = if len0 > 0 && line.get_char(len0 - 1) == '\r' {
            len0 - 1
        } else {
            len0
        };
        let stripped: String = line.substring_char(0, end).to_owned();
        proof {
            assert(strip_cr(line@) =~= line@.subrange(0, end as int));
        }
        let slen = end;
        assert(slen == stripped@.len());
        proof {
            reveal_strlit("package:");
        }
        let start: usize = if str_has_prefix(stripped.as_str(), "package:") {
            8
        } else {
            0
        };
        let ghost l = strip_listing_prefix(stripped@);
        proof {
            assert(l =~= stripped@.subrange(start as int, slen as int));
        }
        // find the last `=` at or after `start`
        let mut k: usize = slen;
        while k > start && stripped.as_str().get_char(k - 1) != '='
            invariant
                slen == stripped@.len(),
                start <= k <= slen,
                forall|j: int| k <= j < slen ==> stripped@[j] != '=',
            decreases k,
        {
            k -= 1;
        }
        proof {
            if k > start {
                assert(stripped@[k - 1] == '=');
                assert(l[k - 1 - start] == '=');
                assert forall|j: int| k - 1 - start < j < l.len() implies l[j] != '=' by {
                    assert(l[j] == stripped@[j + start]);
                }
                lemma_rfind_char_is(l, '=', k - 1 - start);
            } else {
                assert forall|j: int| -1 < j < l.len() implies l[j] != '=' by {
                    assert(l[j] == stripped@[j + start]);
                }
                lemma_rfind_char_is(l, '=', -1);
            }
        }
        if k > start {
            let path = stripped.as_str().substring_char(start, k - 1).to_owned();
            let id = stripped.as_str().substring_char(k, slen).to_owned();
            proof {
                assert(path@ =~= l.take(k - 1 - start));
                assert(id@ =~= l.skip(k - start));
            }
            Package { id, path, name: None }
        } else {
            let id = stripped.as_str().substring_char(start, slen).to_owned();
            proof {
                assert(id@ =~= l);
                assert(Seq::<char>::empty() =~= ""@) by {
                    reveal_strlit("");
                }
            }
            Package { id, path: "".to_owned(), name: None }
        }
    }

    /// Parse a whole listing, one record per line.
    pub fn many_from(s: &str) -> (r: Vec<Package>)
        ensures
            pkgs_view(r@) == spec_many_from(s@),
    {
        let len = s.unicode_len();
        let mut out: Vec<Package> = Vec::new();
        let mut i: usize = 0;
        proof {
            assert(s@.skip(0) =~= s@);
            assert(pkgs_view(out@) + spec_many_from(s@) =~= spec_many_from(s@));
        }
        while i < len
            invariant
                len == s@.len(),
                0 <= i <= len,
                spec_many_from(s@) == pkgs_view(out@) + spec_many_from(s@.skip(i as int)),
            decreases len - i,
        {
            let mut j: usize = i;
            while j < len && s.get_char(j) != '\n'
                invariant
                    len == s@.len(),
                    i <= j <= len,
                    forall|k: int| i <= k < j ==> s@[k] != '\n',
                decreases len - j,
            {
                j += 1;
            }
            let piece = s.substring_char(i, j).to_owned();
            let pkg = Package::from_line(piece.as_str());
            let ghost prev = out@;
            out.push(pkg);
            proof {
                lemma_split_lines_step(s@, i as int, j as int);
                assert(piece@ == s@.subrange(i as int, j as int));
                assert(out@ =~= prev + seq![pkg]);
                assert(pkgs_view(out@) =~= pkgs_view(prev) + seq![pkg@]);
                if j < len {
                    assert(spec_many_from(s@.skip(i as int)) =~= seq![pkg@] + spec_many_from(
                        s@.skip(j + 1),
                    ));
                    assert(spec_many_from(s@) =~= pkgs_view(out@) + spec_many_from(
                        s@.skip(j + 1),
                    ));
                } else {
                    assert(spec_many_from(s@.skip(i as int)) =~= seq![pkg@]);
                    assert(spec_many_from(s@) =~= pkgs_view(out@));
                }
            }
            if j == len {
                proof {
                    assert(spec_many_from(s@) == pkgs_view(out@));
                }
                return out;
            }
            i = j + 1;
        }
        proof {
            assert(s@.skip(len as int) =~= Seq::<char>::empty());
            assert(split_lines(Seq::<char>::empty()) =~= Seq::<Seq<char>>::empty());
            assert(spec_many_from(s@) =~= pkgs_view(out@));
        }
        out
    }
}

} // verus!
