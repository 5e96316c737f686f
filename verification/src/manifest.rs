//! The compiled manifest, decoded by the library itself and reduced
//! to what the label lookup reads: the attribute lists of the
//! document root's direct children, one list per child in document
//! order; a text child contributes an empty list.
//!
//! The decoder walks the node chunks flatly with a depth counter,
//! resolves attribute names against the string pool (an attribute
//! whose pool name is empty is skipped), prefixes them with their
//! namespace's declared prefix, and renders typed values the way the
//! stringly attribute encoding defines: a pool string stands as
//! itself, numbers in decimal, and every other known type as
//! `ResourceValueType::<kind>/<decimal>`. Anything malformed — a
//! chunk that does not fit, an index outside the pool, an unbalanced
//! element, an unknown chunk — yields no document, never a fault.

use vstd::prelude::*;
use vstd::string::StrSliceExecFns;
use vstd::string::StringExecFns;

use crate::pool::{le16, le32, parse_pool, read_le16, read_le32, spec_pool, strings_view};
use crate::restable::opt_str_view;
use crate::strutil::{dec_chars, str_equal, u32_to_string};

verus! {

/// The value sequence of one child's attribute list.
pub open spec fn attrs_view(v: Seq<(String, String)>) -> Seq<(Seq<char>, Seq<char>)> {
    v.map_values(|p: (String, String)| (p.0@, p.1@))
}

/// The value sequence of the whole child list.
pub open spec fn children_view(cs: Seq<Vec<(String, String)>>) -> Seq<
    Seq<(Seq<char>, Seq<char>)>,
> {
    cs.map_values(|a: Vec<(String, String)>| attrs_view(a@))
}

/// The name a known value type renders under.
pub open spec fn type_tag(dtype: int) -> Option<Seq<char>> {
    if dtype == 0x00 {
        Some("Null"@)
    } else if dtype == 0x01 {
        Some("Reference"@)
    } else if dtype == 0x02 {
        Some("Attribute"@)
    } else if dtype == 0x04 {
        Some("Float"@)
    } else if dtype == 0x05 {
        Some("Dimension"@)
    } else if dtype == 0x06 {
        Some("Fraction"@)
    } else if dtype == 0x1c {
        Some("ColorArgb8"@)
    } else if dtype == 0x1d {
        Some("ColorRgb8"@)
    } else if dtype == 0x1e {
        Some("ColorArgb4"@)
    } else if dtype == 0x1f {
        Some("ColorRgb4"@)
    } else {
        None
    }
}

/// What a typed attribute value reads as: a pool string as itself,
/// decimals and hexadecimals and booleans in their plain forms, and
/// every other known type under its `ResourceValueType` name; an
/// unknown type or a pool index out of range is malformed.
pub open spec fn spec_typed_value(dtype: int, data: int, pool: Seq<Seq<char>>) -> Option<
    Seq<char>,
> {
    if dtype == 0x03 {
        if 0 <= data < pool.len() {
            Some(pool[data])
        } else {
            None
        }
    } else if dtype == 0x10 {
        Some(dec_chars(data))
    } else if dtype == 0x11 {
        Some("0x"@ + dec_chars(data))
    } else if dtype == 0x12 {
        Some(if data == 0 { "false"@ } else { "true"@ })
    } else {
        match type_tag(dtype) {
            None => None,
            Some(tag) => Some("ResourceValueType::"@ + tag + "/"@ + dec_chars(data)),
        }
    }
}

/// The prefix declared for a namespace uri, the latest declaration
/// winning.
pub open spec fn ns_prefix(nss: Seq<(Seq<char>, Seq<char>)>, uri: Seq<char>) -> Option<
    Seq<char>,
>
    decreases nss.len(),
{
    if nss.len() == 0 {
        None
    } else if nss.last().0 == uri {
        Some(nss.last().1)
    } else {
        ns_prefix(nss.drop_last(), uri)
    }
}

/// One attribute record: the outer option is the document's health,
/// the inner one whether the attribute contributes a pair.
pub open spec fn spec_attr(
    b: Seq<u8>,
    off: int,
    pool: Seq<Seq<char>>,
    nss: Seq<(Seq<char>, Seq<char>)>,
) -> Option<Option<(Seq<char>, Seq<char>)>> {
    if !(0 <= off && off + 20 <= b.len()) {
        None
    } else {
        let nsi = le32(b, off);
        let namei = le32(b, off + 4);
        let dtype = b[off + 15] as int;
        let data = le32(b, off + 16);
        if !(0 <= namei < pool.len()) {
            None
        } else {
            let name = pool[namei];
            if name.len() == 0 {
                Some(None)
            } else {
                match spec_typed_value(dtype, data, pool) {
                    None => None,
                    Some(value) => if 0 <= nsi < pool.len() && ns_prefix(
                        nss,
                        pool[nsi],
                    ) is Some {
                        Some(Some((ns_prefix(nss, pool[nsi])->Some_0 + ":"@ + name, value)))
                    } else {
                        Some(Some((name, value)))
                    },
                }
            }
        }
    }
}

/// The attribute pairs of one element, in record order.
pub open spec fn spec_attrs(
    b: Seq<u8>,
    off: int,
    cnt: int,
    pool: Seq<Seq<char>>,
    nss: Seq<(Seq<char>, Seq<char>)>,
) -> Option<Seq<(Seq<char>, Seq<char>)>>
    decreases cnt,
{
    if cnt <= 0 {
        Some(Seq::empty())
    } else {
        match spec_attr(b, off, pool, nss) {
            None => None,
            Some(opt) => match spec_attrs(b, off + 20, cnt - 1, pool, nss) {
                None => None,
                Some(rest) => Some(
                    match opt {
                        Some(pair) => seq![pair] + rest,
                        None => rest,
                    },
                ),
            },
        }
    }
}

/// The node-chunk walk: namespace declarations accumulate, elements
/// raise and lower the depth, the attribute lists of depth-one
/// children are collected, and the document is done when the root
/// element closes.
pub open spec fn spec_nodes(
    b: Seq<u8>,
    off: int,
    pool: Seq<Seq<char>>,
    nss: Seq<(Seq<char>, Seq<char>)>,
    depth: int,
    acc: Seq<Seq<(Seq<char>, Seq<char>)>>,
) -> Option<Seq<Seq<(Seq<char>, Seq<char>)>>>
    decreases b.len() - off,
{
    if !(0 <= off && off + 8 <= b.len()) {
        None
    } else {
        let ctype = le16(b, off);
        let csize = le32(b, off + 4);
        if csize < 16 || off + csize > b.len() {
            None
        } else if ctype == 0x0100 {
            if csize < 24 {
                None
            } else {
                let prefixi = le32(b, off + 16);
                let urii = le32(b, off + 20);
                if 0 <= prefixi < pool.len() && 0 <= urii < pool.len() {
                    spec_nodes(
                        b,
                        off + csize,
                        pool,
                        nss.push((pool[urii], pool[prefixi])),
                        depth,
                        acc,
                    )
                } else {
                    None
                }
            }
        } else if ctype == 0x0101 {
            spec_nodes(b, off + csize, pool, nss, depth, acc)
        } else if ctype == 0x0102 {
            if csize < 36 {
                None
            } else {
                let namei = le32(b, off + 20);
                let cnt = le16(b, off + 28);
                if !(0 <= namei < pool.len()) {
                    None
                } else if 36 + 20 * cnt > csize {
                    None
                } else {
                    match spec_attrs(b, off + 36, cnt, pool, nss) {
                        None => None,
                        Some(attrs) => if depth == 0 {
                            spec_nodes(b, off + csize, pool, nss, 1, acc)
                        } else if depth == 1 {
                            spec_nodes(b, off + csize, pool, nss, 2, acc.push(attrs))
                        } else {
                            spec_nodes(b, off + csize, pool, nss, depth + 1, acc)
                        },
                    }
                }
            }
        } else if ctype == 0x0103 {
            if depth <= 0 {
                None
            } else if depth == 1 {
                Some(acc)
            } else {
                spec_nodes(b, off + csize, pool, nss, depth - 1, acc)
            }
        } else if ctype == 0x0104 {
            if csize < 28 {
                None
            } else {
                let datai = le32(b, off + 16);
                if !(0 <= datai < pool.len()) {
                    None
                } else if depth == 0 {
                    None
                } else if depth == 1 {
                    spec_nodes(b, off + csize, pool, nss, depth, acc.push(Seq::empty()))
                } else {
                    spec_nodes(b, off + csize, pool, nss, depth, acc)
                }
            }
        } else {
            None
        }
    }
}

/// What a compiled manifest decodes to, if it decodes at all: the
/// attribute lists of the root's direct children. The namespace list
/// opens with the android namespace, declared or not.
pub open spec fn spec_parse_manifest(b: Seq<u8>) -> Option<Seq<Seq<(Seq<char>, Seq<char>)>>> {
    if b.len() < 8 {
        None
    } else if le16(b, 0) != 0x0003 {
        None
    } else {
        match spec_pool(b, 8) {
            None => None,
            Some(pool) => {
                let nss0 = seq![
                    ("http://schemas.android.com/apk/res/android"@, "android"@),
                ];
                let after = pool.end;
                if after + 8 <= b.len() && le16(b, after) == 0x0180 {
                    let msize = le32(b, after + 4);
                    if msize < 8 || after + msize > b.len() {
                        None
                    } else {
                        spec_nodes(b, after + msize, pool.strings, nss0, 0, Seq::empty())
                    }
                } else {
                    spec_nodes(b, after, pool.strings, nss0, 0, Seq::empty())
                }
            },
        }
    }
}

/// A scan from the end that saw no match after `k` has found the
/// winning declaration, or none at all.
proof fn lemma_ns_prefix_at(nss: Seq<(Seq<char>, Seq<char>)>, uri: Seq<char>, k: int)
    requires
        -1 <= k < nss.len(),
        forall|j: int| k < j < nss.len() ==> (#[trigger] nss[j]).0 != uri,
        k >= 0 ==> nss[k].0 == uri,
    ensures
        ns_prefix(nss, uri) == if k >= 0 {
            Some(nss[k].1)
        } else {
            None::<Seq<char>>
        },
    decreases nss.len(),
{
    if nss.len() > 0 && nss.last().0 != uri {
        let t = nss.drop_last();
        assert forall|j: int| k < j < t.len() implies (#[trigger] t[j]).0 != uri by {
            assert(t[j] == nss[j]);
        }
        assert(k < nss.len() - 1);
        assert(k >= 0 ==> t[k] == nss[k]);
        lemma_ns_prefix_at(t, uri, k);
        if k >= 0 {
            assert(t[k] == nss[k]);
        }
    }
}

/// Find the declared prefix for a uri, the latest declaration first.
#[verifier::loop_isolation(false)]
fn ns_lookup(nss: &Vec<(String, String)>, uri: &String) -> (r: Option<String>)
    ensures
        opt_str_view(r) == ns_prefix(attrs_view(nss@), uri@),
{
    let ghost nv = attrs_view(nss@);
    let mut k: usize = nss.len();
    while k > 0
        invariant
            nv == attrs_view(nss@),
            0 <= k <= nss@.len(),
            forall|j: int| k <= j < nss@.len() ==> (#[trigger] nv[j]).0 != uri@,
        decreases k,
    {
        proof {
            assert(nv[k - 1] == (nss@[k - 1].0@, nss@[k - 1].1@));
        }
        if str_equal(nss[k - 1].0.as_str(), uri.as_str()) {
            proof {
                lemma_ns_prefix_at(nv, uri@, k - 1);
            }
            return Some(nss[k - 1].1.clone());
        }
        k -= 1;
    }
    proof {
        lemma_ns_prefix_at(nv, uri@, -1);
    }
    None
}

/// Render one typed value.
fn typed_value(dtype: u8, data: u32, pool: &Vec<String>) -> (r: Option<String>)
    ensures
        opt_str_view(r) == spec_typed_value(dtype as int, data as int, strings_view(pool@)),
{
    if dtype == 0x03 {
        if (data as usize) < pool.len() {
            proof {
                assert(strings_view(pool@)[data as int] == pool@[data as int]@);
            }
            Some(pool[data as usize].clone())
        } else {
            None
        }
    } else if dtype == 0x10 {
        Some(u32_to_string(data))
    } else if dtype == 0x11 {
        Some("0x".to_owned().concat(u32_to_string(data).as_str()))
    } else if dtype == 0x12 {
        Some(if data == 0 { "false".to_owned() } else { "true".to_owned() })
    } else {
        let tag = if dtype == 0x00 {
            "Null"
        } else if dtype == 0x01 {
            "Reference"
        } else if dtype == 0x02 {
            "Attribute"
        } else if dtype == 0x04 {
            "Float"
        } else if dtype == 0x05 {
            "Dimension"
        } else if dtype == 0x06 {
            "Fraction"
        } else if dtype == 0x1c {
            "ColorArgb8"
        } else if dtype == 0x1d {
            "ColorRgb8"
        } else if dtype == 0x1e {
            "ColorArgb4"
        } else if dtype == 0x1f {
            "ColorRgb4"
        } else {
            return None;
        };
        Some(
            "ResourceValueType::".to_owned().concat(tag).concat("/").concat(
                u32_to_string(data).as_str(),
            ),
        )
    }
}

/// Decode one attribute record.
fn parse_attr(b: &[u8], off: usize, pool: &Vec<String>, nss: &Vec<(String, String)>) -> (r:
    Option<Option<(String, String)>>)
    ensures
        match r {
            Some(Some(p)) => spec_attr(
                b@,
                off as int,
                strings_view(pool@),
                attrs_view(nss@),
            ) == Some(Some((p.0@, p.1@))),
            Some(None) => spec_attr(b@, off as int, strings_view(pool@), attrs_view(nss@))
                == Some(None::<(Seq<char>, Seq<char>)>),
            None => spec_attr(b@, off as int, strings_view(pool@), attrs_view(nss@)) is None,
        },
{
    let len = b.len();
    if off > len || len - off < 20 {
        return None;
    }
    let nsi = read_le32(b, off) as usize;
    let namei = read_le32(b, off + 4) as usize;
    let dtype = b[off + 15];
    let data = read_le32(b, off + 16);
    if namei >= pool.len() {
        return None;
    }
    proof {
        assert(strings_view(pool@)[namei as int] == pool@[namei as int]@);
    }
    if pool[namei].as_str().is_empty() {
        return Some(None);
    }
    let value = match typed_value(dtype, data, pool) {
        None => {
            return None;
        },
        Some(v) => v,
    };
    if nsi < pool.len() {
        proof {
            assert(strings_view(pool@)[nsi as int] == pool@[nsi as int]@);
        }
        match ns_lookup(nss, &pool[nsi]) {
            Some(prefix) => {
                let full = prefix.concat(":").concat(pool[namei].as_str());
                return Some(Some((full, value)));
            },
            None => {
                return Some(Some((pool[namei].clone(), value)));
            },
        }
    }
    Some(Some((pool[namei].clone(), value)))
}

/// Decode one element's attribute records.
#[verifier::loop_isolation(false)]
fn parse_attrs(
    b: &[u8],
    off: usize,
    cnt: usize,
    pool: &Vec<String>,
    nss: &Vec<(String, String)>,
) -> (r: Option<Vec<(String, String)>>)
    requires
        off + 20 * cnt <= b@.len(),
    ensures
        match r {
            Some(a) => spec_attrs(
                b@,
                off as int,
                cnt as int,
                strings_view(pool@),
                attrs_view(nss@),
            ) == Some(attrs_view(a@)),
            None => spec_attrs(
                b@,
                off as int,
                cnt as int,
                strings_view(pool@),
                attrs_view(nss@),
            ) is None,
        },
{
    let len = b.len();
    let ghost pv = strings_view(pool@);
    let ghost nv = attrs_view(nss@);
    let mut out: Vec<(String, String)> = Vec::new();
    let mut k: usize = 0;
    let mut cur: usize = off;
    proof {
        assert(spec_attrs(b@, off as int, cnt as int, pv, nv) == (
        match spec_attrs(b@, cur as int, (cnt - k) as int, pv, nv) {
            None => None::<Seq<(Seq<char>, Seq<char>)>>,
            Some(rest) => Some(attrs_view(out@) + rest),
        })) by {
            if spec_attrs(b@, off as int, cnt as int, pv, nv) is Some {
                let full = spec_attrs(b@, off as int, cnt as int, pv, nv)->Some_0;
                assert(attrs_view(out@) + full =~= full);
            }
        }
    }
    while k < cnt
        invariant
            0 <= k <= cnt,
            cur == off + 20 * k,
            spec_attrs(b@, off as int, cnt as int, pv, nv) == (
            match spec_attrs(b@, cur as int, (cnt - k) as int, pv, nv) {
                None => None::<Seq<(Seq<char>, Seq<char>)>>,
                Some(rest) => Some(attrs_view(out@) + rest),
            }),
        decreases cnt - k,
    {
        match parse_attr(b, cur, pool, nss) {
            None => {
                return None;
            },
            Some(None) => {
                cur = cur + 20;
                k += 1;
            },
            Some(Some(pair)) => {
                let ghost prev_out = out@;
                out.push(pair);
                cur = cur + 20;
                k += 1;
                proof {
                    assert(attrs_view(out@) =~= attrs_view(prev_out).push(
                        (out@[out@.len() - 1].0@, out@[out@.len() - 1].1@),
                    ));
                    if spec_attrs(b@, cur as int, (cnt - k) as int, pv, nv) is Some {
                        let rest = spec_attrs(b@, cur as int, (cnt - k) as int, pv, nv)->Some_0;
                        assert(attrs_view(prev_out) + (seq![
                            (out@[out@.len() - 1].0@, out@[out@.len() - 1].1@),
                        ] + rest) =~= attrs_view(out@) + rest);
                    }
                }
            },
        }
    }
    proof {
        assert(attrs_view(out@) + Seq::<(Seq<char>, Seq<char>)>::empty() =~= attrs_view(out@));
    }
    Some(out)
}

/// Decode a compiled manifest down to the attribute lists of the
/// root's direct children.
#[verifier::loop_isolation(false)]
pub fn parse_manifest_children(bytes: &[u8]) -> (r: Option<Vec<Vec<(String, String)>>>)
    ensures
        match r {
            Some(cs) => spec_parse_manifest(bytes@) == Some(children_view(cs@)),
            None => spec_parse_manifest(bytes@) is None,
        },
{
    let len = bytes.len();
    if len < 8 {
        return None;
    }
    if read_le16(bytes, 0) != 0x0003 {
        return None;
    }
    let pool = match parse_pool(bytes, 8) {
        None => {
            return None;
        },
        Some(p) => p,
    };
    let ghost pv = strings_view(pool.0@);
    let mut off: usize = pool.1;
    if len - off >= 8 && read_le16(bytes, off) == 0x0180 {
        let msize = read_le32(bytes, off + 4) as usize;
        if msize < 8 || msize > len - off {
            return None;
        }
        off += msize;
    }
    let mut nss: Vec<(String, String)> = Vec::new();
    nss.push((
        "http://schemas.android.com/apk/res/android".to_owned(),
        "android".to_owned(),
    ));
    let mut out: Vec<Vec<(String, String)>> = Vec::new();
    let mut depth: usize = 0;
    let ghost target = spec_parse_manifest(bytes@);
    proof {
        assert(attrs_view(nss@) =~= seq![
            ("http://schemas.android.com/apk/res/android"@, "android"@),
        ]);
        assert(children_view(out@) =~= Seq::<Seq<(Seq<char>, Seq<char>)>>::empty());
    }
    loop
        invariant
            len == bytes@.len(),
            off <= len,
            depth <= off,
            target == spec_nodes(
                bytes@,
                off as int,
                pv,
                attrs_view(nss@),
                depth as int,
                children_view(out@),
            ),
        decreases bytes@.len() - off,
    {
        if len - off < 8 {
            return None;
        }
        let ctype = read_le16(bytes, off);
        let csize = read_le32(bytes, off + 4) as usize;
        if csize < 16 || csize > len - off {
            return None;
        }
        if ctype == 0x0100 {
            if csize < 24 {
                return None;
            }
            let prefixi = read_le32(bytes, off + 16) as usize;
            let urii = read_le32(bytes, off + 20) as usize;
            if prefixi >= pool.0.len() || urii >= pool.0.len() {
                return None;
            }
            let ghost prev = nss@;
            let pair = (pool.0[urii].clone(), pool.0[prefixi].clone());
            nss.push(pair);
            proof {
                assert(pv[urii as int] == pool.0@[urii as int]@);
                assert(pv[prefixi as int] == pool.0@[prefixi as int]@);
                assert(attrs_view(nss@) =~= attrs_view(prev).push(
                    (pv[urii as int], pv[prefixi as int]),
                ));
            }
            off += csize;
        } else if ctype == 0x0101 {
            off += csize;
        } else if ctype == 0x0102 {
            if csize < 36 {
                return None;
            }
            let namei = read_le32(bytes, off + 20) as usize;
            if namei >= pool.0.len() {
                return None;
            }
            let cnt = read_le16(bytes, off + 28) as usize;
            if 20 * cnt > csize - 36 {
                return None;
            }
            let attrs = match parse_attrs(bytes, off + 36, cnt, &pool.0, &nss) {
                None => {
                    return None;
                },
                Some(a) => a,
            };
            if depth == 0 {
                depth = 1;
            } else if depth == 1 {
                let ghost prev_out = out@;
                out.push(attrs);
                depth = 2;
                proof {
                    assert(children_view(out@) =~= children_view(prev_out).push(
                        attrs_view(out@[out@.len() - 1]@),
                    ));
                }
            } else {
                depth += 1;
            }
            off += csize;
        } else if ctype == 0x0103 {
            if depth == 0 {
                return None;
            }
            if depth == 1 {
                return Some(out);
            }
            depth -= 1;
            off += csize;
        } else if ctype == 0x0104 {
            if csize < 28 {
                return None;
            }
            let datai = read_le32(bytes, off + 16) as usize;
            if datai >= pool.0.len() {
                return None;
            }
            if depth == 0 {
                return None;
            }
            if depth == 1 {
                let ghost prev_out = out@;
                let empty_attrs: Vec<(String, String)> = Vec::new();
                out.push(empty_attrs);
                proof {
                    assert(attrs_view(out@[out@.len() - 1]@)
                        =~= Seq::<(Seq<char>, Seq<char>)>::empty());
                    assert(children_view(out@) =~= children_view(prev_out).push(
                        Seq::<(Seq<char>, Seq<char>)>::empty(),
                    ));
                }
            }
            off += csize;
        } else {
            return None;
        }
    }
}

/// The value of the first pair carrying `key` in one attribute list.
pub open spec fn first_value_for(attrs: Seq<(Seq<char>, Seq<char>)>, key: Seq<char>) -> Option<
    Seq<char>,
>
    decreases attrs.len(),
{
    if attrs.len() == 0 {
        None
    } else if attrs[0].0 == key {
        Some(attrs[0].1)
    } else {
        first_value_for(attrs.drop_first(), key)
    }
}

/// The value of `key` on the first child that carries it, children
/// scanned in document order.
pub open spec fn spec_label_attr(
    children: Seq<Seq<(Seq<char>, Seq<char>)>>,
    key: Seq<char>,
) -> Option<Seq<char>>
    decreases children.len(),
{
    if children.len() == 0 {
        None
    } else {
        match first_value_for(children[0], key) {
            Some(v) => Some(v),
            None => spec_label_attr(children.drop_first(), key),
        }
    }
}

/// A scan with no hit before `k`, and a hit at `k` if `k` is in
/// range, has found the first pair.
proof fn lemma_first_value_at(attrs: Seq<(Seq<char>, Seq<char>)>, key: Seq<char>, k: int)
    requires
        0 <= k <= attrs.len(),
        forall|j: int| 0 <= j < k ==> (#[trigger] attrs[j]).0 != key,
        k < attrs.len() ==> attrs[k].0 == key,
    ensures
        first_value_for(attrs, key) == if k < attrs.len() {
            Some(attrs[k].1)
        } else {
            None::<Seq<char>>
        },
    decreases attrs.len(),
{
    if attrs.len() == 0 {
    } else if attrs[0].0 == key {
        assert(k == 0);
    } else {
        assert(k >= 1);
        let t = attrs.drop_first();
        assert forall|j: int| 0 <= j < k - 1 implies (#[trigger] t[j]).0 != key by {
            assert(t[j] == attrs[j + 1]);
        }
        assert(k - 1 < t.len() ==> t[k - 1] == attrs[k]);
        lemma_first_value_at(t, key, k - 1);
        if k < attrs.len() {
            assert(t[k - 1] == attrs[k]);
        }
    }
}

/// The child-level counterpart.
proof fn lemma_label_attr_at(children: Seq<Seq<(Seq<char>, Seq<char>)>>, key: Seq<char>, k: int)
    requires
        0 <= k <= children.len(),
        forall|j: int| 0 <= j < k ==> first_value_for(#[trigger] children[j], key) is None,
        k < children.len() ==> first_value_for(children[k], key) is Some,
    ensures
        spec_label_attr(children, key) == if k < children.len() {
            first_value_for(children[k], key)
        } else {
            None::<Seq<char>>
        },
    decreases children.len(),
{
    if children.len() == 0 {
    } else if k == 0 {
        // the hit, if any, is on the very first child
    } else {
        assert(first_value_for(children[0], key) is None);
        let t = children.drop_first();
        assert forall|j: int| 0 <= j < k - 1 implies first_value_for(
            #[trigger] t[j],
            key,
        ) is None by {
            assert(t[j] == children[j + 1]);
        }
        assert(k - 1 < t.len() ==> t[k - 1] == children[k]);
        lemma_label_attr_at(t, key, k - 1);
        if k < children.len() {
            assert(t[k - 1] == children[k]);
        }
    }
}

/// Find the value of `key` on the first of the root's children that
/// carries it.
#[verifier::loop_isolation(false)]
pub fn find_label_attr(children: &Vec<Vec<(String, String)>>, key: &str) -> (r: Option<String>)
    ensures
        opt_str_view(r) == spec_label_attr(children_view(children@), key@),
{
    let ghost cv = children_view(children@);
    let mut ci: usize = 0;
    while ci < children.len()
        invariant
            0 <= ci <= children@.len(),
            forall|j: int| 0 <= j < ci ==> first_value_for(#[trigger] cv[j], key@) is None,
        decreases children@.len() - ci,
    {
        let attrs = &children[ci];
        let ghost av = cv[ci as int];
        proof {
            assert(cv[ci as int] == attrs_view(attrs@));
        }
        let mut ai: usize = 0;
        while ai < attrs.len()
            invariant
                av == attrs_view(attrs@),
                0 <= ai <= attrs@.len(),
                forall|j: int| 0 <= j < ai ==> (#[trigger] av[j]).0 != key@,
            decreases attrs@.len() - ai,
        {
            proof {
                assert(av[ai as int] == (attrs@[ai as int].0@, attrs@[ai as int].1@));
            }
            if str_equal(attrs[ai].0.as_str(), key) {
                proof {
                    lemma_first_value_at(av, key@, ai as int);
                    lemma_label_attr_at(cv, key@, ci as int);
                }
                return Some(attrs[ai].1.clone());
            }
            ai += 1;
        }
        proof {
            lemma_first_value_at(av, key@, ai as int);
        }
        ci += 1;
    }
    proof {
        lemma_label_attr_at(cv, key@, ci as int);
    }
    None
}

} // verus!
