//! The catalog entry: one structured record per title, its textual
//! renderings, and the catalog's total order and assembly.

use vstd::prelude::*;

use crate::text::{
    chars_le, lemma_lex_le_antisym, lemma_lex_le_refl, lemma_lex_le_total, lemma_lex_le_trans,
    lex_le, str_to_chars,
};

verus! {

/// One catalog entry. Title and canonical source URL are non-empty for every
/// entry that the extractor hands out; the companion URL is either a
/// validated absolute URL or the empty string, which marks "no confirmed
/// cross-reference".
#[derive(Debug, PartialEq, Eq)]
pub struct Anime {
    pub title: String,
    pub anime_type: String,
    pub status: String,
    pub emmision_date: String,
    pub genres: String,
    pub target_groups: String,
    pub shinden_url: String,
    pub ogladajanime_url: String,
}

/// The delimited output line of one entry: each field double-quoted, fields
/// separated by comma and space.
pub open spec fn csv_of(a: Anime) -> Seq<char> {
    "\""@ + a.status@ + "\", \""@ + a.anime_type@ + "\", \""@ + a.emmision_date@ + "\", \""@
        + a.target_groups@ + "\", \""@ + a.genres@ + "\", \""@ + a.title@ + "\", \""@
        + a.ogladajanime_url@ + "\", \""@ + a.shinden_url@ + "\""@
}

/// The multi-line diagnostic rendering of one entry.
pub open spec fn display_of(a: Anime) -> Seq<char> {
    a.title@ + "\n- Status: "@ + a.status@ + "\n- Typ: "@ + a.anime_type@
        + "\n- Grupa docelowa: "@ + a.target_groups@ + "\n- Gatunek: "@ + a.genres@
        + "\n- Data emisji: "@ + a.emmision_date@ + "\n- Shinden: "@ + a.shinden_url@
}

/// The catalog's total order: by emission-date string first, then by title,
/// both compared lexicographically by code point. This is a textual, not
/// calendar, comparison: the `??.` placeholder day sorts before numeric days.
pub open spec fn entry_le(a: Anime, b: Anime) -> bool {
    if a.emmision_date@ == b.emmision_date@ {
        lex_le(a.title@, b.title@)
    } else {
        lex_le(a.emmision_date@, b.emmision_date@)
    }
}

impl Anime {
    /// Serialize this entry as one delimited output line, exactly `csv_of`.
    pub fn to_csv(&self) -> (r: String)
        ensures
            r@ == csv_of(*self),
    {
        let mut s = String::new();
        s.append("\"");
        s.append(self.status.as_str());
        s.append("\", \"");
        s.append(self.anime_type.as_str());
        s.append("\", \"");
        s.append(self.emmision_date.as_str());
        s.append("\", \"");
        s.append(self.target_groups.as_str());
        s.append("\", \"");
        s.append(self.genres.as_str());
        s.append("\", \"");
        s.append(self.title.as_str());
        s.append("\", \"");
        s.append(self.ogladajanime_url.as_str());
        s.append("\", \"");
        s.append(self.shinden_url.as_str());
        s.append("\"");
        proof {
            assert(s@ =~= csv_of(*self));
        }
        s
    }

    /// Render this entry for diagnostics, exactly `display_of`.
    pub fn describe(&self) -> (r: String)
        ensures
            r@ == display_of(*self),
    {
        let mut s = String::new();
        s.append(self.title.as_str());
        s.append("\n- Status: ");
        s.append(self.status.as_str());
        s.append("\n- Typ: ");
        s.append(self.anime_type.as_str());
        s.append("\n- Grupa docelowa: ");
        s.append(self.target_groups.as_str());
        s.append("\n- Gatunek: ");
        s.append(self.genres.as_str());
        s.append("\n- Data emisji: ");
        s.append(self.emmision_date.as_str());
        s.append("\n- Shinden: ");
        s.append(self.shinden_url.as_str());
        proof {
            assert(s@ =~= display_of(*self));
        }
        s
    }

    /// The same entry with its companion-site URL filled in; every other
    /// field is kept.
    pub fn with_companion(self, companion: String) -> (r: Anime)
        ensures
            r.title == self.title,
            r.anime_type == self.anime_type,
            r.status == self.status,
            r.emmision_date == self.emmision_date,
            r.genres == self.genres,
            r.target_groups == self.target_groups,
            r.shinden_url == self.shinden_url,
            r.ogladajanime_url == companion,
    {
        Anime { ogladajanime_url: companion, ..self }
    }

    /// Executable comparison under the catalog order, exactly `entry_le`.
    pub fn before(&self, other: &Anime) -> (r: bool)
        ensures
            r == entry_le(*self, *other),
    {
        let da = str_to_chars(self.emmision_date.as_str());
        let db = str_to_chars(other.emmision_date.as_str());
        let date_le = chars_le(&da, &db);
        let date_ge = chars_le(&db, &da);
        if date_le && date_ge {
            proof {
                lemma_lex_le_antisym(da@, db@);
            }
            let ta = str_to_chars(self.title.as_str());
            let tb = str_to_chars(other.title.as_str());
            chars_le(&ta, &tb)
        } else {
            proof {
                lemma_lex_le_refl(da@);
                if da@ == db@ {
                    assert(date_le && date_ge);
                }
            }
            date_le
        }
    }
}

/// The catalog order is total: any two entries are comparable.
pub proof fn lemma_catalog_order_total(a: Anime, b: Anime)
    ensures
        entry_le(a, b) || entry_le(b, a),
{
    lemma_lex_le_total(a.emmision_date@, b.emmision_date@);
    lemma_lex_le_total(a.title@, b.title@);
}

/// The catalog order is transitive.
pub proof fn lemma_catalog_order_trans(a: Anime, b: Anime, c: Anime)
    requires
        entry_le(a, b),
        entry_le(b, c),
    ensures
        entry_le(a, c),
{
    if a.emmision_date@ == b.emmision_date@ && b.emmision_date@ == c.emmision_date@ {
        lemma_lex_le_trans(a.title@, b.title@, c.title@);
    } else if a.emmision_date@ == b.emmision_date@ {
        lemma_lex_le_refl(a.emmision_date@);
        lemma_lex_le_trans(a.emmision_date@, b.emmision_date@, c.emmision_date@);
    } else if b.emmision_date@ == c.emmision_date@ {
        lemma_lex_le_refl(b.emmision_date@);
        lemma_lex_le_trans(a.emmision_date@, b.emmision_date@, c.emmision_date@);
    } else {
        lemma_lex_le_trans(a.emmision_date@, b.emmision_date@, c.emmision_date@);
        if a.emmision_date@ == c.emmision_date@ {
            lemma_lex_le_antisym(a.emmision_date@, b.emmision_date@);
        }
    }
}

/// No two entries compare equal under the catalog order unless both the
/// emission date and the title are identical.
pub proof fn lemma_catalog_order_antisym(a: Anime, b: Anime)
    requires
        entry_le(a, b),
        entry_le(b, a),
    ensures
        a.emmision_date@ == b.emmision_date@,
        a.title@ == b.title@,
{
    if a.emmision_date@ != b.emmision_date@ {
        lemma_lex_le_antisym(a.emmision_date@, b.emmision_date@);
    }
    lemma_lex_le_antisym(a.title@, b.title@);
}

/// The sequence is sorted under the catalog order.
pub open spec fn sorted_catalog(s: Seq<Anime>) -> bool {
    forall|i: int, j: int| 0 <= i < j < s.len() ==> #[trigger] entry_le(s[i], s[j])
}

/// Insert `x`, the latest arrival, into `s` after every element ordered
/// at-or-before it: the placement of a stable insertion sort.
pub open spec fn insert_sorted(x: Anime, s: Seq<Anime>) -> Seq<Anime>
    decreases s.len(),
{
    if s.len() == 0 {
        seq![x]
    } else if entry_le(s.last(), x) {
        s.push(x)
    } else {
        insert_sorted(x, s.drop_last()).push(s.last())
    }
}

/// The stable sort of `s` under the catalog order: each entry, in input
/// order, inserted after every entry ordered at-or-before it, so entries
/// with equal date and title keep their input order.
pub open spec fn stable_sort_spec(s: Seq<Anime>) -> Seq<Anime>
    decreases s.len(),
{
    if s.len() == 0 {
        Seq::empty()
    } else {
        insert_sorted(s.last(), stable_sort_spec(s.drop_last()))
    }
}

proof fn lemma_insert_sorted_len(x: Anime, s: Seq<Anime>)
    ensures
        insert_sorted(x, s).len() == s.len() + 1,
    decreases s.len(),
{
    if s.len() > 0 && !entry_le(s.last(), x) {
        lemma_insert_sorted_len(x, s.drop_last());
    }
}

proof fn lemma_insert_sorted_multiset(x: Anime, s: Seq<Anime>)
    ensures
        insert_sorted(x, s).to_multiset() == s.to_multiset().insert(x),
    decreases s.len(),
{
    broadcast use vstd::seq_lib::group_to_multiset_ensures;
    broadcast use vstd::multiset::group_multiset_axioms;

    if s.len() == 0 {
        assert(seq![x] =~= Seq::<Anime>::empty().push(x));
        assert(s =~= Seq::<Anime>::empty());
        assert(insert_sorted(x, s).to_multiset() =~= s.to_multiset().insert(x));
    } else if entry_le(s.last(), x) {
    } else {
        lemma_insert_sorted_multiset(x, s.drop_last());
        assert(s =~= s.drop_last().push(s.last()));
        assert(s.to_multiset() == s.drop_last().push(s.last()).to_multiset());
        assert(insert_sorted(x, s).to_multiset() =~= s.to_multiset().insert(x));
    }
}

proof fn lemma_insert_sorted_sorted(x: Anime, s: Seq<Anime>)
    requires
        sorted_catalog(s),
    ensures
        sorted_catalog(insert_sorted(x, s)),
    decreases s.len(),
{
    broadcast use vstd::seq_lib::group_to_multiset_ensures;

    let r = insert_sorted(x, s);
    lemma_insert_sorted_len(x, s);
    if s.len() == 0 {
    } else if entry_le(s.last(), x) {
        assert forall|i: int, j: int| 0 <= i < j < r.len() implies #[trigger] entry_le(
            r[i],
            r[j],
        ) by {
            if j == r.len() - 1 {
                if i < s.len() - 1 {
                    assert(entry_le(s[i], s[s.len() - 1]));
                    lemma_catalog_order_trans(s[i], s.last(), x);
                }
            }
        }
    } else {
        assert(sorted_catalog(s.drop_last()));
        lemma_insert_sorted_sorted(x, s.drop_last());
        lemma_insert_sorted_len(x, s.drop_last());
        let u = insert_sorted(x, s.drop_last());
        lemma_insert_sorted_multiset(x, s.drop_last());
        lemma_catalog_order_total(x, s.last());
        assert forall|i: int, j: int| 0 <= i < j < r.len() implies #[trigger] entry_le(
            r[i],
            r[j],
        ) by {
            if j == r.len() - 1 {
                let e = u[i];
                assert(u.contains(e));
                assert(u.to_multiset().count(e) > 0);
                if e == x {
                    assert(entry_le(x, s.last()));
                } else {
                    assert(s.drop_last().to_multiset().count(e) > 0);
                    assert(s.drop_last().contains(e));
                    let k = choose|k: int| 0 <= k < s.drop_last().len() && s.drop_last()[k] == e;
                    assert(entry_le(s[k], s[s.len() - 1]));
                }
            } else {
                assert(entry_le(u[i], u[j]));
            }
        }
    }
}

proof fn lemma_stable_sort_ensures(s: Seq<Anime>)
    ensures
        stable_sort_spec(s).to_multiset() == s.to_multiset(),
        stable_sort_spec(s).len() == s.len(),
        sorted_catalog(stable_sort_spec(s)),
    decreases s.len(),
{
    broadcast use vstd::seq_lib::group_to_multiset_ensures;

    if s.len() == 0 {
        assert(stable_sort_spec(s).to_multiset() =~= s.to_multiset());
    } else {
        lemma_stable_sort_ensures(s.drop_last());
        lemma_insert_sorted_len(s.last(), stable_sort_spec(s.drop_last()));
        lemma_insert_sorted_multiset(s.last(), stable_sort_spec(s.drop_last()));
        lemma_insert_sorted_sorted(s.last(), stable_sort_spec(s.drop_last()));
        assert(s =~= s.drop_last().push(s.last()));
        assert(s.to_multiset() == s.drop_last().push(s.last()).to_multiset());
        assert(stable_sort_spec(s).to_multiset() =~= s.to_multiset());
    }
}

/// Where a stable insertion places `x`: at the position whose predecessor
/// (if any) is ordered at-or-before `x` and after which nothing is.
proof fn lemma_insert_sorted_at(x: Anime, s: Seq<Anime>, p: int)
    requires
        0 <= p <= s.len(),
        p == 0 || entry_le(s[p - 1], x),
        forall|j: int| p <= j < s.len() ==> !(#[trigger] entry_le(s[j], x)),
    ensures
        insert_sorted(x, s) == s.insert(p, x),
    decreases s.len(),
{
    if s.len() == 0 {
        assert(insert_sorted(x, s) =~= s.insert(0, x));
    } else if entry_le(s.last(), x) {
        assert(p == s.len());
        assert(s.push(x) =~= s.insert(p, x));
    } else {
        assert(p < s.len());
        lemma_insert_sorted_at(x, s.drop_last(), p);
        assert(s.drop_last().insert(p, x).push(s.last()) =~= s.insert(p, x));
    }
}

/// The entries of `s` holding exactly this date and title, in order.
pub open spec fn with_key(s: Seq<Anime>, d: Seq<char>, t: Seq<char>) -> Seq<Anime>
    decreases s.len(),
{
    if s.len() == 0 {
        Seq::empty()
    } else {
        with_key(s.drop_last(), d, t) + if s.last().emmision_date@ == d && s.last().title@ == t {
            seq![s.last()]
        } else {
            Seq::<Anime>::empty()
        }
    }
}

proof fn lemma_insert_sorted_with_key(x: Anime, s: Seq<Anime>, d: Seq<char>, t: Seq<char>)
    ensures
        with_key(insert_sorted(x, s), d, t) == with_key(s, d, t) + (
        if x.emmision_date@ == d && x.title@ == t {
            seq![x]
        } else {
            Seq::<Anime>::empty()
        }),
    decreases s.len(),
{
    let ghost xk = if x.emmision_date@ == d && x.title@ == t {
        seq![x]
    } else {
        Seq::<Anime>::empty()
    };
    if s.len() == 0 {
        assert(insert_sorted(x, s) == seq![x]);
        assert(seq![x].drop_last() =~= Seq::<Anime>::empty());
        assert(seq![x].last() == x);
        assert(with_key(Seq::<Anime>::empty(), d, t) == Seq::<Anime>::empty());
        assert(with_key(seq![x], d, t) == with_key(seq![x].drop_last(), d, t) + xk);
        assert(with_key(insert_sorted(x, s), d, t) =~= with_key(s, d, t) + xk);
    } else if entry_le(s.last(), x) {
        assert(s.push(x).drop_last() =~= s);
        assert(s.push(x).last() == x);
        assert(with_key(insert_sorted(x, s), d, t) =~= with_key(s, d, t) + xk);
    } else {
        lemma_insert_sorted_with_key(x, s.drop_last(), d, t);
        let u = insert_sorted(x, s.drop_last());
        let ghost lk = if s.last().emmision_date@ == d && s.last().title@ == t {
            seq![s.last()]
        } else {
            Seq::<Anime>::empty()
        };
        assert(u.push(s.last()).drop_last() =~= u);
        assert(u.push(s.last()).last() == s.last());
        assert(with_key(insert_sorted(x, s), d, t) == with_key(u, d, t) + lk);
        assert(with_key(u, d, t) == with_key(s.drop_last(), d, t) + xk);
        assert(with_key(s, d, t) == with_key(s.drop_last(), d, t) + lk);
        if x.emmision_date@ == d && x.title@ == t && s.last().emmision_date@ == d
            && s.last().title@ == t {
            lemma_lex_le_refl(x.title@);
            assert(entry_le(s.last(), x));
            assert(false);
        }
        if x.emmision_date@ == d && x.title@ == t {
            assert(lk =~= Seq::<Anime>::empty());
        } else {
            assert(xk =~= Seq::<Anime>::empty());
        }
        assert(with_key(s.drop_last(), d, t) + xk + lk =~= with_key(s.drop_last(), d, t) + lk
            + xk);
        assert(with_key(insert_sorted(x, s), d, t) =~= with_key(s, d, t) + xk);
    }
}

/// Sorting keeps the input order of tied entries: for any date and title,
/// the entries of the sorted catalog holding exactly that key are those of
/// the input, in the same order.
pub proof fn lemma_sort_keeps_tied_order(s: Seq<Anime>, d: Seq<char>, t: Seq<char>)
    ensures
        with_key(stable_sort_spec(s), d, t) == with_key(s, d, t),
    decreases s.len(),
{
    if s.len() > 0 {
        lemma_sort_keeps_tied_order(s.drop_last(), d, t);
        lemma_insert_sorted_with_key(s.last(), stable_sort_spec(s.drop_last()), d, t);
        assert(with_key(stable_sort_spec(s), d, t) =~= with_key(s, d, t));
    }
}

/// Order the accumulated entries under the catalog order: exactly the
/// stable sort of the input. The result holds the given entries, sorted,
/// and entries with equal date and title keep their input order.
pub fn sort_catalog(v: Vec<Anime>) -> (r: Vec<Anime>)
    ensures
        r@ == stable_sort_spec(v@),
        r@.to_multiset() == v@.to_multiset(),
        r@.len() == v@.len(),
        sorted_catalog(r@),
        forall|d: Seq<char>, t: Seq<char>| with_key(r@, d, t) == #[trigger] with_key(v@, d, t),
{
    let ghost orig = v@;
    let mut rest = v;
    let mut out: Vec<Anime> = Vec::new();
    let ghost mut done: int = 0;
    proof {
        assert(rest@ =~= orig.subrange(0, orig.len() as int));
        assert(orig.subrange(0, 0) =~= Seq::<Anime>::empty());
    }
    while rest.len() > 0
        invariant
            0 <= done <= orig.len(),
            rest@ == orig.subrange(done, orig.len() as int),
            out@ == stable_sort_spec(orig.subrange(0, done)),
            sorted_catalog(out@),
        decreases rest.len(),
    {
        let x = rest.remove(0);
        proof {
            assert(x == orig[done]);
            assert(orig.subrange(done, orig.len() as int).remove(0) =~= orig.subrange(
                done + 1,
                orig.len() as int,
            ));
        }
        let ghost old_out = out@;
        let mut p: usize = out.len();
        while p > 0 && !out[p - 1].before(&x)
            invariant
                p <= out@.len(),
                out@ == old_out,
                forall|j: int| p <= j < out@.len() ==> !(#[trigger] entry_le(out@[j], x)),
            decreases p,
        {
            p = p - 1;
        }
        out.insert(p, x);
        proof {
            lemma_insert_sorted_at(x, old_out, p as int);
            lemma_insert_sorted_sorted(x, old_out);
            done = done + 1;
            assert(orig.subrange(0, done).drop_last() =~= orig.subrange(0, done - 1));
            assert(orig.subrange(0, done).last() == orig[done - 1]);
            assert(out@ == stable_sort_spec(orig.subrange(0, done)));
        }
    }
    proof {
        assert(orig.subrange(0, done) =~= orig);
        lemma_stable_sort_ensures(orig);
        assert forall|d: Seq<char>, t: Seq<char>|
            with_key(out@, d, t) == #[trigger] with_key(orig, d, t) by {
            lemma_sort_keeps_tied_order(orig, d, t);
        }
    }
    out
}

/// The data lines of the output artifact: one delimited line, newline
/// terminated, per entry, in sequence order.
pub open spec fn catalog_lines(entries: Seq<Anime>) -> Seq<char>
    decreases entries.len(),
{
    if entries.len() == 0 {
        Seq::empty()
    } else {
        catalog_lines(entries.drop_last()) + csv_of(entries.last()) + "\n"@
    }
}

/// The full output artifact: the fixed header line, then one line per entry.
pub open spec fn rendered_catalog(entries: Seq<Anime>) -> Seq<char> {
    "Status, Typ, Data emisji, Grupa docelowa, Gatunek, Tytu\u{142}, Link do Ogladajanime, Link do Shinden\n"@
        + catalog_lines(entries)
}

/// Render the whole catalog as the text of the output artifact, exactly
/// `rendered_catalog`.
pub fn render_catalog(entries: &Vec<Anime>) -> (r: String)
    ensures
        r@ == rendered_catalog(entries@),
{
    let mut s = String::new();
    s.append(
        "Status, Typ, Data emisji, Grupa docelowa, Gatunek, Tytu\u{142}, Link do Ogladajanime, Link do Shinden\n",
    );
    let n: usize = entries.len();
    let mut i: usize = 0;
    proof {
        assert(entries@.subrange(0, 0) =~= Seq::<Anime>::empty());
        assert(s@ =~= rendered_catalog(entries@.subrange(0, 0)));
    }
    while i < n
        invariant
            i <= n,
            n == entries@.len(),
            s@ == rendered_catalog(entries@.subrange(0, i as int)),
        decreases n - i,
    {
        let line = entries[i].to_csv();
        s.append(line.as_str());
        s.append("\n");
        i = i + 1;
        proof {
            assert(entries@.subrange(0, i as int).drop_last() =~= entries@.subrange(
                0,
                i as int - 1,
            ));
            assert(entries@.subrange(0, i as int).last() == entries@[i as int - 1]);
            assert(s@ =~= rendered_catalog(entries@.subrange(0, i as int)));
        }
    }
    proof {
        assert(entries@.subrange(0, n as int) =~= entries@);
    }
    s
}

} // verus!
