//! File names: which files of a directory hold prices, and how the files that go with them
//! are called.
//!
//! A name is a sequence of bytes without directory parts. Its extension is what follows its
//! last point, unless that point is the first byte or there is none; its stem is what stands
//! before that point, and the whole name where there is no extension.

use vstd::prelude::*;
use crate::price_text::POINT;

verus! {

/// The byte `-`, which joins a token's name and a time stamp.
pub const HYPHEN: u8 = 45;

/// The extension of a price file, `txt`.
pub open spec fn input_extension() -> Seq<u8> {
    seq![116u8, 120u8, 116u8]
}

/// The extension of a result file, `out`.
pub open spec fn output_extension() -> Seq<u8> {
    seq![111u8, 117u8, 116u8]
}

/// The position of the last point in `name`, and -1 where it has none.
pub open spec fn last_point(name: Seq<u8>) -> int
    decreases name.len(),
{
    if name.len() == 0 {
        -1
    } else if name.last() == POINT {
        name.len() - 1
    } else {
        last_point(name.drop_last())
    }
}

/// Whether `name` has an extension.
pub open spec fn has_extension(name: Seq<u8>) -> bool {
    last_point(name) > 0
}

/// The extension of `name`; empty where it has none.
pub open spec fn extension_of(name: Seq<u8>) -> Seq<u8> {
    if has_extension(name) {
        name.skip(last_point(name) + 1)
    } else {
        Seq::<u8>::empty()
    }
}

/// The stem of `name`.
pub open spec fn stem_of(name: Seq<u8>) -> Seq<u8> {
    if has_extension(name) {
        name.take(last_point(name))
    } else {
        name
    }
}

/// Whether a file called `name` is taken as a price file: its extension is `txt`.
pub open spec fn is_price_file_name(name: Seq<u8>) -> bool {
    has_extension(name) && extension_of(name) == input_extension()
}

/// The name of the result file that goes with the input file `name`: the stem, a point and
/// `out`.
pub open spec fn output_name_of(name: Seq<u8>) -> Seq<u8> {
    stem_of(name) + seq![POINT] + output_extension()
}

/// The name of the price file for the token `token` fetched at the time `stamp`: the two
/// joined by a hyphen, a point and `txt`.
pub open spec fn price_file_name_of(token: Seq<u8>, stamp: Seq<u8>) -> Seq<u8> {
    token + seq![HYPHEN] + stamp + seq![POINT] + input_extension()
}

/// The last point of `name` is a point, and no point follows it.
pub proof fn lemma_last_point(name: Seq<u8>)
    ensures
        -1 <= last_point(name) < name.len(),
        last_point(name) >= 0 ==> name[last_point(name)] == POINT,
        forall|k: int| last_point(name) < k < name.len() ==> #[trigger] name[k] != POINT,
    decreases name.len(),
{
    if name.len() > 0 && name.last() != POINT {
        let shorter = name.drop_last();
        lemma_last_point(shorter);
        assert forall|k: int| last_point(name) < k < name.len() implies #[trigger] name[k]
            != POINT by {
            if k < shorter.len() {
                assert(shorter[k] == name[k]);
            }
        }
    }
}

/// A position is the last point as soon as it holds a point and none follows it.
proof fn lemma_last_point_is_at(name: Seq<u8>, at: int)
    requires
        0 <= at < name.len(),
        name[at] == POINT,
        forall|k: int| at < k < name.len() ==> #[trigger] name[k] != POINT,
    ensures
        last_point(name) == at,
{
    lemma_last_point(name);
    let found = last_point(name);
    if found < at {
        assert(name[at] != POINT);
    } else if found > at {
        assert(name[found] != POINT);
    }
}

/// The position of the last point in `name`, if it has one.
fn find_last_point(name: &[u8]) -> (r: Option<usize>)
    ensures
        match r {
            Some(at) => at == last_point(name@) && at < name@.len(),
            None => last_point(name@) == -1,
        },
{
    let mut end: usize = name.len();
    assert(name@.take(end as int) =~= name@);
    while end > 0
        invariant
            end <= name@.len(),
            last_point(name@) == last_point(name@.take(end as int)),
        decreases end,
    {
        if name[end - 1] == POINT {
            return Some(end - 1);
        }
        assert(name@.take(end as int).drop_last() =~= name@.take(end - 1));
        end = end - 1;
    }
    None
}

/// Whether a file called `name` is taken as a price file.
pub fn is_price_file(name: &[u8]) -> (r: bool)
    ensures
        r == is_price_file_name(name@),
{
    match find_last_point(name) {
        Some(at) => {
            if at > 0 && name.len() - at == 4 {
                let same: bool = name[at + 1] == 116 && name[at + 2] == 120 && name[at + 3]
                    == 116;
                assert(same <==> name@.skip(at + 1) =~= input_extension());
                same
            } else {
                assert(at > 0 ==> name@.skip(at + 1).len() != input_extension().len());
                false
            }
        },
        None => false,
    }
}

/// The name of the result file that goes with the input file `name`.
pub fn output_name(name: &[u8]) -> (r: Vec<u8>)
    ensures
        r@ == output_name_of(name@),
{
    let stem_len: usize = match find_last_point(name) {
        Some(at) => if at > 0 {
            at
        } else {
            name.len()
        },
        None => name.len(),
    };
    assert(stem_of(name@) =~= name@.take(stem_len as int));
    let mut out: Vec<u8> = Vec::new();
    let mut i: usize = 0;
    while i < stem_len
        invariant
            i <= stem_len <= name@.len(),
            out@ == name@.take(i as int),
        decreases stem_len - i,
    {
        out.push(name[i]);
        assert(name@.take(i + 1) =~= name@.take(i as int).push(name@[i as int]));
        i = i + 1;
    }
    out.push(POINT);
    out.push(111);
    out.push(117);
    out.push(116);
    assert(out@ =~= output_name_of(name@));
    out
}

/// The name of the price file for the token `token` fetched at the time `stamp`.
pub fn price_file_name(token: &[u8], stamp: &[u8]) -> (r: Vec<u8>)
    ensures
        r@ == price_file_name_of(token@, stamp@),
{
    let mut out: Vec<u8> = Vec::new();
    let mut i: usize = 0;
    while i < token.len()
        invariant
            i <= token@.len(),
            out@ == token@.take(i as int),
        decreases token@.len() - i,
    {
        out.push(token[i]);
        assert(token@.take(i + 1) =~= token@.take(i as int).push(token@[i as int]));
        i = i + 1;
    }
    assert(token@.take(i as int) =~= token@);
    out.push(HYPHEN);
    let mut j: usize = 0;
    while j < stamp.len()
        invariant
            j <= stamp@.len(),
            out@ == token@ + seq![HYPHEN] + stamp@.take(j as int),
        decreases stamp@.len() - j,
    {
        out.push(stamp[j]);
        assert(stamp@.take(j + 1) =~= stamp@.take(j as int).push(stamp@[j as int]));
        assert(out@ =~= token@ + seq![HYPHEN] + stamp@.take(j + 1));
        j = j + 1;
    }
    assert(stamp@.take(j as int) =~= stamp@);
    out.push(POINT);
    out.push(116);
    out.push(120);
    out.push(116);
    assert(out@ =~= price_file_name_of(token@, stamp@));
    out
}

/// Every price file that is written under a name made by `price_file_name` is taken as an
/// input file, whatever the token and the stamp, and its stem is the two joined by a hyphen.
pub proof fn lemma_price_file_is_input(token: Seq<u8>, stamp: Seq<u8>)
    ensures
        is_price_file_name(price_file_name_of(token, stamp)),
        stem_of(price_file_name_of(token, stamp)) == token + seq![HYPHEN] + stamp,
        output_name_of(price_file_name_of(token, stamp)) == token + seq![HYPHEN] + stamp + seq![
            POINT,
        ] + output_extension(),
{
    let name = price_file_name_of(token, stamp);
    let at: int = (token.len() + 1 + stamp.len()) as int;
    assert(name[at] == POINT);
    lemma_last_point_is_at(name, at);
    assert(name.skip(at + 1) =~= input_extension());
    assert(name.take(at) =~= token + seq![HYPHEN] + stamp);
}

/// A result file is never taken as an input file, so results may be written into the
/// directory that the prices are read from.
pub proof fn lemma_output_is_no_input(name: Seq<u8>)
    ensures
        !is_price_file_name(output_name_of(name)),
{
    let out = output_name_of(name);
    let at: int = stem_of(name).len() as int;
    assert(out[at] == POINT);
    assert(out[at + 1] == 111u8);
    lemma_last_point_is_at(out, at);
    if at > 0 {
        assert(out.skip(at + 1)[0] == 111u8);
        assert(input_extension()[0] == 116u8);
    }
}

} // verus!
