//! Unix path components and component-wise prefix tests, as `std::path::Path`
//! defines them.

use vstd::prelude::*;
use crate::text;

verus! {

/// A piece between separators that names something: not empty and not `.`.
pub open spec fn normal_piece() -> spec_fn(Seq<char>) -> bool {
    |w: Seq<char>| w.len() > 0 && w != seq!['.']
}

/// The components of a Unix path as `Path::components` yields them, the root
/// written `/` and a leading current-directory component written `.`:
/// repeated separators and `.` pieces are dropped, except a `.` that begins a
/// relative path.
pub open spec fn components(p: Seq<char>) -> Seq<Seq<char>> {
    let pieces = text::split_on(p, '/');
    let normal = pieces.filter(normal_piece());
    if p.len() > 0 && p[0] == '/' {
        seq![seq!['/']] + normal
    } else if pieces[0] == seq!['.'] {
        seq![seq!['.']] + normal
    } else {
        normal
    }
}

/// `Path::starts_with`: the components of `base` begin the components of `p`.
pub open spec fn path_starts_with(p: Seq<char>, base: Seq<char>) -> bool {
    let pc = components(p);
    let bc = components(base);
    bc.len() <= pc.len() && pc.take(bc.len() as int) == bc
}

proof fn lemma_split_concat(a: Seq<char>, c: char, b: Seq<char>, is_sep: spec_fn(char) -> bool)
    requires
        is_sep(c),
    ensures
        text::split_by(a + seq![c] + b, is_sep) == text::split_by(a, is_sep) + text::split_by(b, is_sep),
    decreases b.len(),
{
    let s = a + seq![c] + b;
    if b.len() == 0 {
        assert(s.drop_last() =~= a);
        assert(text::split_by(b, is_sep) =~= seq![Seq::<char>::empty()]);
        assert(text::split_by(s, is_sep) =~= text::split_by(a, is_sep) + text::split_by(b, is_sep));
    } else {
        lemma_split_concat(a, c, b.drop_last(), is_sep);
        assert(s.drop_last() =~= a + seq![c] + b.drop_last());
        assert(s.last() == b.last());
        text::lemma_split_by_nonempty(b.drop_last(), is_sep);
        text::lemma_split_by_nonempty(a, is_sep);
        assert(text::split_by(s, is_sep) =~= text::split_by(a, is_sep) + text::split_by(b, is_sep));
    }
}

proof fn lemma_split_name(name: Seq<char>, is_sep: spec_fn(char) -> bool)
    requires
        forall|k: int| 0 <= k < name.len() ==> !is_sep(#[trigger] name[k]),
    ensures
        text::split_by(name, is_sep) == seq![name],
    decreases name.len(),
{
    if name.len() > 0 {
        lemma_split_name(name.drop_last(), is_sep);
        assert(!is_sep(name[name.len() - 1]));
        assert(name.drop_last().push(name.last()) =~= name);
        assert(seq![name.drop_last()].update(0, name.drop_last().push(name.last())) =~= seq![name]);
    } else {
        assert(name =~= Seq::<char>::empty());
    }
}

/// A name that can stand between separators: not empty, no `/`, not `.`.
pub open spec fn is_name(n: Seq<char>) -> bool {
    n.len() > 0 && n != seq!['.'] && forall|k: int| 0 <= k < n.len() ==> #[trigger] n[k] != '/'
}

/// The components of `/name/rest` are the root, `name`, then the components
/// that `rest` contributes; those of `/name` are the root and `name`.
pub proof fn lemma_components_below(name: Seq<char>, rest: Seq<char>)
    requires
        is_name(name),
    ensures
        components(seq!['/'] + name + seq!['/'] + rest) == seq![seq!['/'], name]
            + text::split_on(rest, '/').filter(normal_piece()),
        components(seq!['/'] + name) == seq![seq!['/'], name],
{
    broadcast use vstd::seq_lib::group_filter_ensures;
    let sep = text::is_char('/');
    let p = seq!['/'] + name + seq!['/'] + rest;
    let q = seq!['/'] + name;
    lemma_split_name(name, sep);
    lemma_split_concat(Seq::<char>::empty(), '/', name + seq!['/'] + rest, sep);
    assert(Seq::<char>::empty() + seq!['/'] + (name + seq!['/'] + rest) =~= p);
    lemma_split_concat(name, '/', rest, sep);
    lemma_split_concat(Seq::<char>::empty(), '/', name, sep);
    assert(Seq::<char>::empty() + seq!['/'] + name =~= q);
    assert(text::split_by(Seq::<char>::empty(), sep) =~= seq![Seq::<char>::empty()]);
    reveal_with_fuel(Seq::<_>::filter, 2);
    let e = seq![Seq::<char>::empty()];
    let nm = seq![name];
    let r = text::split_on(rest, '/');
    assert(e.filter(normal_piece()) =~= Seq::<Seq<char>>::empty()) by {
        assert(e.drop_last() =~= Seq::<Seq<char>>::empty());
    }
    assert(nm.filter(normal_piece()) =~= nm) by {
        assert(nm.drop_last() =~= Seq::<Seq<char>>::empty());
    }
    Seq::filter_distributes_over_add(e, nm + r, normal_piece());
    Seq::filter_distributes_over_add(nm, r, normal_piece());
    Seq::filter_distributes_over_add(e, nm, normal_piece());
    assert(text::split_by(p, sep) =~= e + (nm + r));
    assert(text::split_by(q, sep) =~= e + nm);
    assert(components(p) =~= seq![seq!['/'], name] + r.filter(normal_piece()));
    assert(components(q) =~= seq![seq!['/'], name]);
}

/// The pieces that name something in `name/rest` are `name`, then those of `rest`.
pub proof fn lemma_pieces_name_first(name: Seq<char>, rest: Seq<char>)
    requires
        is_name(name),
    ensures
        text::split_on(name + seq!['/'] + rest, '/').filter(normal_piece()) == seq![name]
            + text::split_on(rest, '/').filter(normal_piece()),
        text::split_on(name, '/').filter(normal_piece()) == seq![name],
{
    broadcast use vstd::seq_lib::group_filter_ensures;
    let sep = text::is_char('/');
    lemma_split_name(name, sep);
    lemma_split_concat(name, '/', rest, sep);
    reveal_with_fuel(Seq::<_>::filter, 2);
    let nm = seq![name];
    assert(nm.filter(normal_piece()) =~= nm) by {
        assert(nm.drop_last() =~= Seq::<Seq<char>>::empty());
    }
    Seq::filter_distributes_over_add(nm, text::split_on(rest, '/'), normal_piece());
}

fn is_dot(w: &Vec<char>) -> (r: bool)
    ensures
        r == (w@ == seq!['.']),
{
    let r = w.len() == 1 && w[0] == '.';
    proof {
        if w.len() == 1 && w@[0] == '.' {
            assert(w@ =~= seq!['.']);
        }
    }
    r
}

/// The components of the path `p`.
pub fn components_of(p: &Vec<char>) -> (c: Vec<Vec<char>>)
    ensures
        text::views(c@) == components(p@),
{
    let pieces = text::split_chars(p, '/');
    let ghost pv = text::views(pieces@);
    proof {
        text::lemma_split_by_nonempty(p@, text::is_char('/'));
        assert(pv == text::split_on(p@, '/'));
    }
    let mut c: Vec<Vec<char>> = Vec::new();
    if p.len() > 0 && p[0] == '/' {
        let mut root: Vec<char> = Vec::new();
        root.push('/');
        c.push(root);
        proof {
            assert(c@[0]@ =~= seq!['/']);
        }
    } else if is_dot(&pieces[0]) {
        let mut cur: Vec<char> = Vec::new();
        cur.push('.');
        c.push(cur);
        proof {
            assert(c@[0]@ =~= seq!['.']);
        }
    }
    let ghost head = text::views(c@);
    proof {
        assert(pv[0] == pieces@[0]@);
        assert(pv.take(0).filter(normal_piece()) =~= Seq::<Seq<char>>::empty());
        assert(text::views(c@) =~= head + pv.take(0).filter(normal_piece()));
    }
    let mut i: usize = 0;
    while i < pieces.len()
        invariant
            i <= pieces.len(),
            pv == text::views(pieces@),
            pv.len() == pieces.len(),
            text::views(c@) == head + pv.take(i as int).filter(normal_piece()),
        decreases pieces.len() - i,
    {
        proof {
            reveal_with_fuel(Seq::<_>::filter, 1);
            assert(pv.take(i + 1).drop_last() =~= pv.take(i as int));
            assert(pv[i as int] == pieces@[i as int]@);
        }
        let ghost before = text::views(c@);
        if pieces[i].len() > 0 && !is_dot(&pieces[i]) {
            let piece = text::copy_chars(&pieces[i]);
            c.push(piece);
            proof {
                assert(normal_piece()(pv[i as int]));
                assert(pv.take(i + 1).filter(normal_piece()) == pv.take(i as int).filter(
                    normal_piece(),
                ).push(pv[i as int]));
                assert(text::views(c@) =~= before.push(pv[i as int]));
            }
        } else {
            proof {
                assert(!normal_piece()(pv[i as int]));
                assert(pv.take(i + 1).filter(normal_piece()) == pv.take(i as int).filter(
                    normal_piece(),
                ));
            }
        }
        proof {
            assert(text::views(c@) =~= head + pv.take(i + 1).filter(normal_piece()));
        }
        i = i + 1;
    }
    proof {
        assert(pv.take(pieces.len() as int) =~= pv);
        let normal = pv.filter(normal_piece());
        if p@.len() > 0 && p@[0] == '/' {
            assert(head =~= seq![seq!['/']]);
        } else if pv[0] == seq!['.'] {
            assert(head =~= seq![seq!['.']]);
        } else {
            assert(head =~= Seq::<Seq<char>>::empty());
        }
        assert(text::views(c@) =~= components(p@));
    }
    c
}

/// Whether the path `p` starts with the path `base`, component by component.
pub fn starts_with(p: &str, base: &str) -> (r: bool)
    ensures
        r == path_starts_with(p@, base@),
{
    let pc = components_of(&text::chars_of(p));
    let bc = components_of(&text::chars_of(base));
    if bc.len() > pc.len() {
        return false;
    }
    let mut i: usize = 0;
    while i < bc.len()
        invariant
            i <= bc.len() <= pc.len(),
            text::views(pc@) == components(p@),
            text::views(bc@) == components(base@),
            forall|k: int| 0 <= k < i ==> pc@[k]@ == bc@[k]@,
        decreases bc.len() - i,
    {
        if !text::chars_equal(&pc[i], &bc[i]) {
            proof {
                assert(text::views(pc@).take(bc.len() as int)[i as int] == pc@[i as int]@);
                assert(text::views(bc@)[i as int] == bc@[i as int]@);
            }
            return false;
        }
        i = i + 1;
    }
    proof {
        assert(text::views(pc@).take(bc.len() as int) =~= text::views(bc@));
    }
    true
}

} // verus!
