//! Geospatial points and the per-key geo index: coordinates in
//! ten-millionths of a degree, the base-32 geohash computed by exact
//! interval bisection, and an R-tree kept member-for-member in step with
//! the tag list.

use vstd::prelude::*;
use vstd::multiset::Multiset;
use crate::num::dec_rep;
use crate::text::{dec_chars, push_char, push_u64_dec};

verus! {

/// One geohash step: bisect the longitude interval on even steps and the
/// latitude interval on odd ones, emitting one bit each. Coordinates and
/// interval bounds are offset to be nonnegative and scaled by 2^25 from
/// ten-millionths of a degree, so every midpoint is exact.
pub open spec fn gh_bits(
    k: int,
    latlo: int,
    lathi: int,
    lnglo: int,
    lnghi: int,
    lat: int,
    lng: int,
) -> Seq<bool>
    decreases 50 - k,
{
    if k >= 50 {
        Seq::empty()
    } else if k % 2 == 0 {
        let mid = (lnglo + lnghi) / 2;
        if lng >= mid {
            seq![true] + gh_bits(k + 1, latlo, lathi, mid, lnghi, lat, lng)
        } else {
            seq![false] + gh_bits(k + 1, latlo, lathi, lnglo, mid, lat, lng)
        }
    } else {
        let mid = (latlo + lathi) / 2;
        if lat >= mid {
            seq![true] + gh_bits(k + 1, mid, lathi, lnglo, lnghi, lat, lng)
        } else {
            seq![false] + gh_bits(k + 1, latlo, mid, lnglo, lnghi, lat, lng)
        }
    }
}

/// The character standing for five geohash bits.
pub open spec fn base32_char(v: int) -> char {
    seq![
        '0', '1', '2', '3', '4', '5', '6', '7', '8', '9', 'b', 'c', 'd', 'e', 'f', 'g', 'h', 'j',
        'k', 'm', 'n', 'p', 'q', 'r', 's', 't', 'u', 'v', 'w', 'x', 'y', 'z',
    ][v]
}

/// The fifty geohash bits of a coordinate given in ten-millionths of a
/// degree.
pub open spec fn spec_gh_full(lat: i64, lng: i64) -> Seq<bool> {
    gh_bits(
        0,
        0,
        1800000000int * 0x2000000,
        0,
        3600000000int * 0x2000000,
        (lat + 900000000) * 0x2000000,
        (lng + 1800000000) * 0x2000000,
    )
}

/// The ten-character geohash of a coordinate given in ten-millionths of a
/// degree.
pub open spec fn spec_geohash(lat: i64, lng: i64) -> Seq<char> {
    let bits = spec_gh_full(lat, lng);
    Seq::new(10, |i: int| base32_char(
        16 * (if bits[5 * i] { 1int } else { 0int }) + 8 * (if bits[5 * i + 1] { 1int } else { 0int })
            + 4 * (if bits[5 * i + 2] { 1int } else { 0int }) + 2 * (if bits[5 * i + 3] {
            1int
        } else {
            0int
        }) + (if bits[5 * i + 4] { 1int } else { 0int }),
    ))
}

proof fn lemma_gh_bits_len(
    k: int,
    latlo: int,
    lathi: int,
    lnglo: int,
    lnghi: int,
    lat: int,
    lng: int,
)
    requires
        0 <= k <= 50,
    ensures
        gh_bits(k, latlo, lathi, lnglo, lnghi, lat, lng).len() == 50 - k,
    decreases 50 - k,
{
    if k < 50 {
        if k % 2 == 0 {
            let mid = (lnglo + lnghi) / 2;
            lemma_gh_bits_len(k + 1, latlo, lathi, mid, lnghi, lat, lng);
            lemma_gh_bits_len(k + 1, latlo, lathi, lnglo, mid, lat, lng);
        } else {
            let mid = (latlo + lathi) / 2;
            lemma_gh_bits_len(k + 1, mid, lathi, lnglo, lnghi, lat, lng);
            lemma_gh_bits_len(k + 1, latlo, mid, lnglo, lnghi, lat, lng);
        }
    }
}

/// Computes the ten-character geohash of a coordinate.
pub fn geohash_e7(lat: i64, lng: i64) -> (r: String)
    requires
        -900000000 <= lat <= 900000000,
        -1800000000 <= lng <= 1800000000,
    ensures
        r@ == spec_geohash(lat, lng),
{
    let mut latlo: u128 = 0;
    let mut lathi: u128 = 1800000000u128 * 0x2000000;
    let mut lnglo: u128 = 0;
    let mut lnghi: u128 = 3600000000u128 * 0x2000000;
    let slat: u128 = ((lat as i128 + 900000000) as u128) * 0x2000000;
    let slng: u128 = ((lng as i128 + 1800000000) as u128) * 0x2000000;
    let ghost full = spec_gh_full(lat, lng);
    let mut bits: Vec<bool> = Vec::new();
    let mut k: usize = 0;
    proof {
        lemma_gh_bits_len(0, 0, 1800000000int * 0x2000000, 0, 3600000000int * 0x2000000,
            slat as int, slng as int);
        assert(full == gh_bits(0, latlo as int, lathi as int, lnglo as int, lnghi as int,
            slat as int, slng as int));
    }
    while k < 50
        invariant
            k <= 50,
            bits@.len() == k,
            slat == ((lat as i128 + 900000000) as u128) * 0x2000000,
            slng == ((lng as i128 + 1800000000) as u128) * 0x2000000,
            latlo <= lathi <= 1800000000 * 0x2000000,
            lnglo <= lnghi <= 3600000000 * 0x2000000,
            full == bits@ + gh_bits(
                k as int,
                latlo as int,
                lathi as int,
                lnglo as int,
                lnghi as int,
                slat as int,
                slng as int,
            ),
            full.len() == 50,
        decreases 50 - k,
    {
        let ghost pre = bits@;
        let ghost obounds = (latlo as int, lathi as int, lnglo as int, lnghi as int);
        if k % 2 == 0 {
            let mid: u128 = (lnglo + lnghi) / 2;
            proof {
                assert(mid as int == (obounds.2 + obounds.3) / 2);
            }
            if slng >= mid {
                bits.push(true);
                lnglo = mid;
            } else {
                bits.push(false);
                lnghi = mid;
            }
        } else {
            let mid: u128 = (latlo + lathi) / 2;
            proof {
                assert(mid as int == (obounds.0 + obounds.1) / 2);
            }
            if slat >= mid {
                bits.push(true);
                latlo = mid;
            } else {
                bits.push(false);
                lathi = mid;
            }
        }
        k = k + 1;
        proof {
            assert(full =~= bits@ + gh_bits(
                k as int,
                latlo as int,
                lathi as int,
                lnglo as int,
                lnghi as int,
                slat as int,
                slng as int,
            ));
        }
    }
    proof {
        assert(gh_bits(50, latlo as int, lathi as int, lnglo as int, lnghi as int, slat as int,
            slng as int) =~= Seq::<bool>::empty());
        assert(full =~= bits@);
    }
    let mut out = String::new();
    let mut i: usize = 0;
    while i < 10
        invariant
            i <= 10,
            bits@ == full,
            full == spec_gh_full(lat, lng),
            full.len() == 50,
            out@ =~= spec_geohash(lat, lng).take(i as int),
        decreases 10 - i,
    {
        let mut v: u8 = 0;
        if bits[5 * i] {
            v = v + 16;
        }
        if bits[5 * i + 1] {
            v = v + 8;
        }
        if bits[5 * i + 2] {
            v = v + 4;
        }
        if bits[5 * i + 3] {
            v = v + 2;
        }
        if bits[5 * i + 4] {
            v = v + 1;
        }
        let c = base32_char_exec(v);
        push_char(&mut out, c);
        proof {
            assert(spec_geohash(lat, lng)[i as int] == c);
            assert(out@ =~= spec_geohash(lat, lng).take(i + 1));
        }
        i = i + 1;
    }
    proof {
        assert(spec_geohash(lat, lng).take(10) =~= spec_geohash(lat, lng));
    }
    out
}

fn base32_char_exec(v: u8) -> (c: char)
    requires
        v < 32,
    ensures
        c == base32_char(v as int),
{
    proof {
        reveal_strlit("0123456789bcdefghjkmnpqrstuvwxyz");
    }
    let table = "0123456789bcdefghjkmnpqrstuvwxyz";
    let c = table.get_char(v as usize);
    proof {
        assert(table@[v as int] == base32_char(v as int));
    }
    c
}

/// The decimal text of a coordinate stored in ten-millionths of a degree:
/// the whole degrees, then up to seven fraction digits with trailing zeros
/// dropped.
pub open spec fn fmt_e7(v: i64) -> Seq<char> {
    let sign: Seq<char> = if v < 0 {
        seq!['-']
    } else {
        Seq::empty()
    };
    let mag = if v < 0 {
        (-(v as int)) as nat
    } else {
        v as nat
    };
    let whole = mag / 10000000;
    let frac = mag % 10000000;
    if frac == 0 {
        sign + dec_chars(whole)
    } else {
        sign + dec_chars(whole) + seq!['.'] + frac_chars(frac)
    }
}

/// Seven fraction digits with trailing zeros dropped.
pub open spec fn frac_chars(frac: nat) -> Seq<char>
    recommends
        0 < frac < 10000000,
{
    trim_zeros(pad7(frac))
}

pub open spec fn pad7(frac: nat) -> Seq<char> {
    let digits = dec_chars(frac);
    zeros((7 - digits.len()) as nat) + digits
}

pub open spec fn zeros(n: nat) -> Seq<char> {
    Seq::new(n, |i: int| '0')
}

pub open spec fn trim_zeros(s: Seq<char>) -> Seq<char>
    decreases s.len(),
{
    if s.len() > 0 && s.last() == '0' {
        trim_zeros(s.drop_last())
    } else {
        s
    }
}

/// Formats a coordinate stored in ten-millionths of a degree.
pub fn format_e7(v: i64) -> (r: String)
    ensures
        r@ == fmt_e7(v),
{
    let mut out = String::new();
    let mag: u64 = if v == i64::MIN {
        9223372036854775808u64
    } else if v < 0 {
        (-v) as u64
    } else {
        v as u64
    };
    if v < 0 {
        push_char(&mut out, '-');
    }
    let whole: u64 = mag / 10000000;
    let frac: u64 = mag % 10000000;
    push_u64_dec(&mut out, whole);
    if frac > 0 {
        push_char(&mut out, '.');
        // seven digits, then drop trailing zeros
        let digits = crate::num::u64_to_dec(frac);
        let ghost padded = pad7(frac as nat);
        let mut buf: Vec<char> = Vec::new();
        let mut z: usize = 0;
        proof {
            assert(crate::num::pow10(7) == 10000000) by {
                reveal_with_fuel(crate::num::pow10, 8);
            }
            crate::num::lemma_dec_rep_len_le(frac as nat, 7);
        }
        let pad_n = 7 - digits.len();
        while z < pad_n
            invariant
                z <= pad_n,
                pad_n == 7 - digits@.len(),
                digits@.len() <= 7,
                buf@ =~= zeros(z as nat),
            decreases pad_n - z,
        {
            buf.push('0');
            proof {
                assert(buf@ =~= zeros((z + 1) as nat));
            }
            z = z + 1;
        }
        let mut di: usize = 0;
        while di < digits.len()
            invariant
                di <= digits@.len(),
                digits@ == dec_rep(frac as nat),
                digits@.len() <= 7,
                buf@ =~= zeros((7 - digits@.len()) as nat) + dec_chars(frac as nat).take(
                    di as int,
                ),
            decreases digits@.len() - di,
        {
            let b = digits[di];
            buf.push(b as char);
            di = di + 1;
            proof {
                assert(buf@ =~= zeros((7 - digits@.len()) as nat) + dec_chars(frac as nat).take(
                    di as int,
                ));
            }
        }
        proof {
            assert(dec_chars(frac as nat).take(dec_chars(frac as nat).len() as int) =~= dec_chars(
                frac as nat,
            ));
            assert(buf@ =~= padded);
        }
        // drop trailing zeros
        let mut endpos: usize = buf.len();
        proof {
            assert(padded.take(buf@.len() as int) =~= padded);
        }
        loop
            invariant_except_break
                endpos <= buf@.len(),
                buf@ == padded,
                trim_zeros(padded) == trim_zeros(padded.take(endpos as int)),
            ensures
                endpos <= buf@.len(),
                buf@ == padded,
                trim_zeros(padded) == padded.take(endpos as int),
            decreases endpos,
        {
            if endpos == 0 {
                proof {
                    assert(padded.take(0) =~= Seq::<char>::empty());
                }
                break;
            }
            if buf[endpos - 1] != '0' {
                proof {
                    assert(padded.take(endpos as int).last() != '0');
                }
                break;
            }
            proof {
                assert(padded.take(endpos as int).drop_last() =~= padded.take(endpos - 1));
            }
            endpos = endpos - 1;
        }
        let mut w: usize = 0;
        let ghost out_before = out@;
        while w < endpos
            invariant
                w <= endpos <= buf@.len(),
                buf@ == padded,
                out@ =~= out_before + padded.take(w as int),
            decreases endpos - w,
        {
            push_char(&mut out, buf[w]);
            w = w + 1;
            proof {
                assert(out@ =~= out_before + padded.take(w as int));
            }
        }
        proof {
            assert(out@ =~= out_before + trim_zeros(padded));
        }
    }
    proof {
        if v >= 0 {
            assert(out@ =~= fmt_e7(v));
        } else {
            assert(out@ =~= fmt_e7(v));
        }
    }
    out
}

/// A geospatial point: its member tag, latitude and longitude in
/// ten-millionths of a degree, and the geohash derived from them.
pub struct GeoPoint2D {
    pub tag: String,
    pub x_cord: i64,
    pub y_cord: i64,
    pub hash: String,
}

impl GeoPoint2D {
    /// A point is well formed when its coordinates lie on the globe and its
    /// hash is the one its coordinates derive.
    pub open spec fn wf(&self) -> bool {
        &&& -900000000 <= self.spec_x() <= 900000000
        &&& -1800000000 <= self.spec_y() <= 1800000000
        &&& self.spec_hash() == spec_geohash(self.spec_x(), self.spec_y())
    }

    pub open spec fn spec_x(&self) -> i64 {
        self.x_cord
    }

    pub open spec fn spec_y(&self) -> i64 {
        self.y_cord
    }

    pub open spec fn spec_hash(&self) -> Seq<char> {
        self.hash@
    }

    /// Builds a point, deriving its hash from the coordinates.
    pub fn with_cord(tag: String, x_cord: i64, y_cord: i64) -> (r: GeoPoint2D)
        requires
            -900000000 <= x_cord <= 900000000,
            -1800000000 <= y_cord <= 1800000000,
        ensures
            r.wf(),
            r.tag@ == tag@,
            r.spec_x() == x_cord,
            r.spec_y() == y_cord,
    {
        let hash = geohash_e7(x_cord, y_cord);
        GeoPoint2D { tag, x_cord, y_cord, hash }
    }

    pub fn x_cord(&self) -> (r: i64)
        ensures
            r == self.spec_x(),
    {
        self.x_cord
    }

    pub fn y_cord(&self) -> (r: i64)
        ensures
            r == self.spec_y(),
    {
        self.y_cord
    }

    pub fn hash(&self) -> (r: &String)
        ensures
            r@ == self.spec_hash(),
    {
        &self.hash
    }

    pub fn get_cord(&self) -> (r: (i64, i64))
        ensures
            r.0 == self.spec_x(),
            r.1 == self.spec_y(),
    {
        (self.x_cord, self.y_cord)
    }

    fn clone_point(&self) -> (r: GeoPoint2D)
        ensures
            r.tag@ == self.tag@,
            r.spec_x() == self.spec_x(),
            r.spec_y() == self.spec_y(),
            r.spec_hash() == self.spec_hash(),
            self.wf() ==> r.wf(),
    {
        GeoPoint2D {
            tag: self.tag.clone(),
            x_cord: self.x_cord,
            y_cord: self.y_cord,
            hash: self.hash.clone(),
        }
    }
}

/// An R-tree of coordinate pairs. Verus refuses the declaration of
/// `rstar::RTree` itself (its generics are bound by rstar's traits), so the
/// tree lives behind this opaque holder and is reached only through the
/// trusted wrappers below.
#[verifier::external_body]
pub struct CoordTree {
    tree: rstar::RTree<[i64; 2]>,
}

/// What the R-tree holds.
pub uninterp spec fn rtree_points(t: CoordTree) -> Multiset<(i64, i64)>;

/// Relies on rstar::RTree::new: a fresh tree holds nothing.
#[verifier::external_body]
fn rtree_new() -> (r: CoordTree)
    ensures
        rtree_points(r) == Multiset::<(i64, i64)>::empty(),
{
    CoordTree { tree: rstar::RTree::new() }
}

/// Relies on rstar::RTree::insert: the tree gains exactly the inserted
/// point.
#[verifier::external_body]
fn rtree_insert(t: &mut CoordTree, x: i64, y: i64)
    ensures
        rtree_points(*final(t)) == rtree_points(*old(t)).insert((x, y)),
{
    t.tree.insert([x, y]);
}

/// Relies on rstar::RTree::remove: one element equal to the point leaves
/// the tree when the tree holds any, and nothing changes otherwise.
#[verifier::external_body]
fn rtree_remove(t: &mut CoordTree, x: i64, y: i64) -> (r: bool)
    ensures
        rtree_points(*old(t)).contains((x, y)) ==> r && rtree_points(*final(t)) == rtree_points(
            *old(t),
        ).remove((x, y)),
        !rtree_points(*old(t)).contains((x, y)) ==> !r && rtree_points(*final(t)) == rtree_points(
            *old(t),
        ),
{
    t.tree.remove(&[x, y]).is_some()
}

/// Relies on rstar::RTree::size: the number of stored points.
#[verifier::external_body]
pub fn rtree_size(t: &CoordTree) -> (r: usize)
    ensures
        r == rtree_points(*t).len(),
{
    t.tree.size()
}

/// A per-key geo index: the member points keyed by tag, and the R-tree
/// over their coordinates that serves spatial queries.
pub struct GeoTree {
    pub points: Vec<GeoPoint2D>,
    pub rtree: CoordTree,
}

/// The coordinate multiset of a member list.
pub open spec fn points_coords(ps: Seq<GeoPoint2D>) -> Multiset<(i64, i64)>
    decreases ps.len(),
{
    if ps.len() == 0 {
        Multiset::empty()
    } else {
        points_coords(ps.drop_last()).insert((ps.last().spec_x(), ps.last().spec_y()))
    }
}

/// The index of a tag among the members, or the member count when absent.
pub open spec fn tag_index(ps: Seq<GeoPoint2D>, tag: Seq<char>) -> int
    decreases ps.len(),
{
    if ps.len() == 0 {
        0
    } else if ps[0].tag@ == tag {
        0
    } else {
        1 + tag_index(ps.drop_first(), tag)
    }
}

pub open spec fn has_tag(ps: Seq<GeoPoint2D>, tag: Seq<char>) -> bool {
    tag_index(ps, tag) < ps.len()
}

pub proof fn lemma_tag_index(ps: Seq<GeoPoint2D>, tag: Seq<char>)
    ensures
        0 <= tag_index(ps, tag) <= ps.len(),
        tag_index(ps, tag) < ps.len() ==> ps[tag_index(ps, tag)].tag@ == tag,
        forall|j: int| 0 <= j < tag_index(ps, tag) ==> ps[j].tag@ != tag,
    decreases ps.len(),
{
    if ps.len() > 0 && ps[0].tag@ != tag {
        lemma_tag_index(ps.drop_first(), tag);
        assert forall|j: int| 0 <= j < tag_index(ps, tag) implies ps[j].tag@ != tag by {
            if j > 0 {
                assert(ps.drop_first()[j - 1] == ps[j]);
            }
        }
    }
}

pub proof fn lemma_tag_index_is(ps: Seq<GeoPoint2D>, tag: Seq<char>, i: int)
    requires
        0 <= i <= ps.len(),
        i < ps.len() ==> ps[i].tag@ == tag,
        forall|j: int| 0 <= j < i ==> ps[j].tag@ != tag,
    ensures
        tag_index(ps, tag) == i,
    decreases ps.len(),
{
    if ps.len() > 0 && ps[0].tag@ != tag {
        lemma_tag_index_is(ps.drop_first(), tag, i - 1);
    }
}

/// Removing a member removes exactly its coordinates from the multiset.
proof fn lemma_points_coords_remove(ps: Seq<GeoPoint2D>, i: int)
    requires
        0 <= i < ps.len(),
    ensures
        points_coords(ps) == points_coords(ps.remove(i)).insert((ps[i].spec_x(), ps[i].spec_y())),
    decreases ps.len(),
{
    if i == ps.len() - 1 {
        assert(ps.remove(i) =~= ps.drop_last());
    } else {
        lemma_points_coords_remove(ps.drop_last(), i);
        assert(ps.remove(i).drop_last() =~= ps.drop_last().remove(i));
        assert(ps.remove(i).last() == ps.last());
        assert(points_coords(ps.remove(i)) == points_coords(
            ps.drop_last().remove(i),
        ).insert((ps.last().spec_x(), ps.last().spec_y())));
        assert(points_coords(ps.drop_last()).insert(
            (ps.last().spec_x(), ps.last().spec_y()),
        ) =~= points_coords(ps.drop_last().remove(i)).insert(
            (ps[i].spec_x(), ps[i].spec_y()),
        ).insert((ps.last().spec_x(), ps.last().spec_y())));
    }
}

impl GeoTree {
    /// The index is well formed when tags are unique, every point is well
    /// formed, and the R-tree's members match the tag list's coordinates
    /// point for point.
    pub open spec fn wf(&self) -> bool {
        &&& (forall|i: int, j: int|
            0 <= i < j < self.spec_points().len() ==> (#[trigger] self.spec_points()[i]).tag@ != (
            #[trigger] self.spec_points()[j]).tag@)
        &&& (forall|i: int|
            0 <= i < self.spec_points().len() ==> (#[trigger] self.spec_points()[i]).wf())
        &&& self.spec_tree_points() == points_coords(self.spec_points())
    }

    /// The member points, in insertion order.
    pub open spec fn spec_points(&self) -> Seq<GeoPoint2D> {
        self.points@
    }

    pub open spec fn spec_tree_points(&self) -> Multiset<(i64, i64)> {
        rtree_points(self.rtree)
    }

    pub fn new() -> (r: GeoTree)
        ensures
            r.wf(),
            r.spec_points().len() == 0,
    {
        let t = GeoTree { points: Vec::new(), rtree: rtree_new() };
        proof {
            assert(points_coords(t.points@) =~= Multiset::<(i64, i64)>::empty());
        }
        t
    }

    pub fn len(&self) -> (r: usize)
        ensures
            r == self.spec_points().len(),
    {
        self.points.len()
    }

    /// Looks a tag's point up.
    pub fn get<'a>(&'a self, tag: &str) -> (r: Option<&'a GeoPoint2D>)
        ensures
            has_tag(self.spec_points(), tag@) ==> (r matches Some(p) && *p == self.spec_points()[
                tag_index(self.spec_points(), tag@)]),
            !has_tag(self.spec_points(), tag@) ==> r is None,
    {
        let mut i: usize = 0;
        while i < self.points.len()
            invariant
                i <= self.points@.len(),
                forall|j: int| 0 <= j < i ==> (#[trigger] self.points@[j]).tag@ != tag@,
            decreases self.points@.len() - i,
        {
            if crate::utils::str_eq(self.points[i].tag.as_str(), tag) {
                proof {
                    lemma_tag_index_is(self.points@, tag@, i as int);
                }
                return Some(&self.points[i]);
            }
            i = i + 1;
        }
        proof {
            lemma_tag_index_is(self.points@, tag@, self.points@.len() as int);
        }
        None
    }

    /// Upserts a point: a member under the same tag is replaced, so tags
    /// stay unique and the R-tree tracks the change.
    pub fn insert(&mut self, p: GeoPoint2D)
        requires
            old(self).wf(),
            p.wf(),
        ensures
            final(self).wf(),
            has_tag(old(self).spec_points(), p.tag@) ==> final(self).spec_points() == old(
                self,
            ).spec_points().update(tag_index(old(self).spec_points(), p.tag@), p),
            !has_tag(old(self).spec_points(), p.tag@) ==> final(self).spec_points() == old(
                self,
            ).spec_points().push(p),
    {
        let ghost ps0 = self.points@;
        let mut i: usize = 0;
        let n = self.points.len();
        loop
            invariant_except_break
                i <= n,
                n == self.points@.len(),
                self.points@ == ps0,
                *self == *old(self),
                forall|j: int| 0 <= j < i ==> (#[trigger] ps0[j]).tag@ != p.tag@,
            ensures
                self.points@ == ps0,
                *self == *old(self),
                i <= ps0.len(),
                i < ps0.len() ==> ps0[i as int].tag@ == p.tag@,
                forall|j: int| 0 <= j < i ==> (#[trigger] ps0[j]).tag@ != p.tag@,
            decreases n - i,
        {
            if i == n {
                break;
            }
            if crate::utils::str_eq(self.points[i].tag.as_str(), p.tag.as_str()) {
                break;
            }
            i = i + 1;
        }
        proof {
            if i < ps0.len() {
                lemma_tag_index_is(ps0, p.tag@, i as int);
            } else {
                lemma_tag_index_is(ps0, p.tag@, ps0.len() as int);
            }
        }
        if i < n {
            // replace: drop the old coordinates from the tree first
            let (ox, oy) = self.points[i].get_cord();
            proof {
                lemma_points_coords_remove(ps0, i as int);
                assert(points_coords(ps0).contains((ps0[i as int].spec_x(), ps0[
                    i as int].spec_y())));
            }
            rtree_remove(&mut self.rtree, ox, oy);
            rtree_insert(&mut self.rtree, p.x_cord(), p.y_cord());
            let ghost pv = p;
            self.points.set(i, p);
            proof {
                lemma_points_coords_remove(self.points@, i as int);
                assert(self.points@.remove(i as int) =~= ps0.remove(i as int));
                assert(rtree_points(self.rtree) =~= points_coords(self.points@));
            }
        } else {
            rtree_insert(&mut self.rtree, p.x_cord(), p.y_cord());
            let ghost pv = p;
            self.points.push(p);
            proof {
                assert(self.points@.drop_last() =~= ps0);
                assert(rtree_points(self.rtree) =~= points_coords(self.points@));
            }
        }
    }

    /// Deletes a tag's point; reports whether one was there.
    pub fn delete(&mut self, tag: &str) -> (r: bool)
        requires
            old(self).wf(),
        ensures
            final(self).wf(),
            r == has_tag(old(self).spec_points(), tag@),
            r ==> final(self).spec_points() == old(self).spec_points().remove(
                tag_index(old(self).spec_points(), tag@),
            ),
            !r ==> final(self).spec_points() == old(self).spec_points(),
    {
        let ghost ps0 = self.points@;
        let mut i: usize = 0;
        let n = self.points.len();
        loop
            invariant_except_break
                i <= n,
                n == self.points@.len(),
                self.points@ == ps0,
                *self == *old(self),
                forall|j: int| 0 <= j < i ==> (#[trigger] ps0[j]).tag@ != tag@,
            ensures
                self.points@ == ps0,
                *self == *old(self),
                i <= ps0.len(),
                i < ps0.len() ==> ps0[i as int].tag@ == tag@,
                forall|j: int| 0 <= j < i ==> (#[trigger] ps0[j]).tag@ != tag@,
            decreases n - i,
        {
            if i == n {
                break;
            }
            if crate::utils::str_eq(self.points[i].tag.as_str(), tag) {
                break;
            }
            i = i + 1;
        }
        proof {
            if i < ps0.len() {
                lemma_tag_index_is(ps0, tag@, i as int);
            } else {
                lemma_tag_index_is(ps0, tag@, ps0.len() as int);
            }
        }
        if i < n {
            let (ox, oy) = self.points[i].get_cord();
            proof {
                lemma_points_coords_remove(ps0, i as int);
                assert(points_coords(ps0).contains((ps0[i as int].spec_x(), ps0[
                    i as int].spec_y())));
            }
            rtree_remove(&mut self.rtree, ox, oy);
            let _gone = self.points.remove(i);
            proof {
                assert(rtree_points(self.rtree) =~= points_coords(self.points@));
            }
            true
        } else {
            false
        }
    }

    /// Folds another index in: union of points by tag, the other side
    /// winning on shared tags — the Geo half of the store's merge operator.
    pub fn merge_from(&mut self, other: &GeoTree)
        requires
            old(self).wf(),
            other.wf(),
        ensures
            final(self).wf(),
            crate::db::geo_members_of(final(self).spec_points()) == crate::db::m_upsert_all(
                crate::db::geo_members_of(old(self).spec_points()),
                crate::db::members_as_items(crate::db::geo_members_of(other.spec_points())),
            ),
    {
        let ghost ms0 = crate::db::geo_members_of(self.spec_points());
        let ghost items = crate::db::members_as_items(
            crate::db::geo_members_of(other.spec_points()),
        );
        proof {
            assert(items.take(0) =~= Seq::<(i64, i64, Seq<char>)>::empty());
            crate::db::lemma_geo_members_of(other.spec_points());
        }
        let mut i: usize = 0;
        while i < other.points.len()
            invariant
                i <= other.points@.len(),
                self.wf(),
                other.wf(),
                ms0 == crate::db::geo_members_of(old(self).spec_points()),
                items == crate::db::members_as_items(
                    crate::db::geo_members_of(other.spec_points()),
                ),
                items.len() == other.points@.len(),
                forall|j: int|
                    0 <= j < other.points@.len() ==> #[trigger] items[j] == (
                        other.spec_points()[j].spec_x(),
                        other.spec_points()[j].spec_y(),
                        other.spec_points()[j].tag@,
                    ),
                crate::db::geo_members_of(self.spec_points()) == crate::db::m_upsert_all(
                    ms0,
                    items.take(i as int),
                ),
            decreases other.points@.len() - i,
        {
            let p = other.points[i].clone_point();
            let ghost pre = self.spec_points();
            proof {
                assert(other.spec_points()[i as int].wf());
            }
            self.insert(p);
            proof {
                crate::db::lemma_members_upsert(pre, self.spec_points(), p);
                crate::db::lemma_m_upsert_all_snoc(ms0, items, i as int);
            }
            i = i + 1;
        }
        proof {
            assert(items.take(items.len() as int) =~= items);
        }
    }

}

} // verus!
