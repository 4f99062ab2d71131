//! Builds SQL query fragments as plain strings.

use vstd::prelude::*;
use crate::ryz::res::Res;

verus! {

/// The items joined with the separator between consecutive items.
pub open spec fn join_sep(items: Seq<Seq<char>>, sep: Seq<char>) -> Seq<char>
    decreases items.len(),
{
    if items.len() == 0 {
        Seq::empty()
    } else if items.len() == 1 {
        items[0]
    } else {
        items[0] + sep + join_sep(items.drop_first(), sep)
    }
}

proof fn lemma_join_sep_push(items: Seq<Seq<char>>, sep: Seq<char>, x: Seq<char>)
    ensures
        items.len() == 0 ==> join_sep(items.push(x), sep) == x,
        items.len() > 0 ==> join_sep(items.push(x), sep) == join_sep(items, sep) + sep + x,
    decreases items.len(),
{
    if items.len() == 0 {
        assert(items.push(x)[0] == x);
    } else if items.len() == 1 {
        assert(items.push(x).drop_first() =~= seq![x]);
        assert(items.push(x)[0] == items[0]);
        assert(seq![x][0] == x);
        assert(join_sep(seq![x], sep) == x);
        assert(join_sep(items.push(x), sep) == items.push(x)[0] + sep + join_sep(
            items.push(x).drop_first(),
            sep,
        ));
    } else {
        lemma_join_sep_push(items.drop_first(), sep, x);
        assert(items.push(x).drop_first() =~= items.drop_first().push(x));
        assert(join_sep(items, sep) + sep + x =~= items[0] + sep + (join_sep(
            items.drop_first(),
            sep,
        ) + sep + x));
    }
}

/// The views of a sequence of strings.
pub open spec fn str_views(items: Seq<String>) -> Seq<Seq<char>> {
    items.map_values(|s: String| s@)
}

/// Builds `<target> IN (<item>, <item>, ...)`.
pub fn build_where_in(target: &str, in_arr: &[String]) -> (r: Res<String>)
    ensures
        r matches Ok(s) && s@ == target@ + " IN ("@ + join_sep(str_views(in_arr@), ", "@)
            + ")"@,
{
    let mut out = String::new();
    out.append(target);
    out.append(" IN (");
    let mut i: usize = 0;
    while i < in_arr.len()
        invariant
            i <= in_arr.len(),
            out@ == target@ + " IN ("@ + join_sep(str_views(in_arr@).take(i as int), ", "@),
        decreases in_arr.len() - i,
    {
        proof {
            lemma_join_sep_push(str_views(in_arr@).take(i as int), ", "@, in_arr@[i as int]@);
            assert(str_views(in_arr@).take(i + 1) =~= str_views(in_arr@).take(i as int).push(
                in_arr@[i as int]@,
            ));
        }
        if i > 0 {
            out.append(", ");
        }
        out.append(in_arr[i].as_str());
        proof {
            assert(out@ =~= target@ + " IN ("@ + join_sep(
                str_views(in_arr@).take(i + 1),
                ", "@,
            ));
        }
        i = i + 1;
    }
    proof {
        assert(str_views(in_arr@).take(in_arr@.len() as int) =~= str_views(in_arr@));
    }
    let mut done = out;
    done.append(")");
    Ok(done)
}

} // verus!
