use vstd::prelude::*;

use crate::utils::lex_le;

verus! {

broadcast use vstd::string::group_string_axioms;

/// One node of the directory tree handed in by the walk: its display name,
/// whether it is a directory, and its child nodes in enumeration order.
pub struct TreeEntry {
    pub name: String,
    pub is_dir: bool,
    pub children: Vec<TreeEntry>,
}

/// Height of a tree node, for termination measures.
pub open spec fn height(t: TreeEntry) -> nat
    decreases t,
{
    1 + heights(t.children@)
}

/// Greatest height among a sequence of nodes.
pub open spec fn heights(s: Seq<TreeEntry>) -> nat
    decreases s,
{
    if s.len() == 0 {
        0
    } else {
        let h0 = height(s[0]);
        let hr = heights(s.drop_first());
        if h0 > hr {
            h0
        } else {
            hr
        }
    }
}

/// Listing order of two siblings: directories before files, and by name
/// within each group.
pub open spec fn entry_le(a: TreeEntry, b: TreeEntry) -> bool {
    if a.is_dir && !b.is_dir {
        true
    } else if !a.is_dir && b.is_dir {
        false
    } else {
        lex_le(a.name@, b.name@)
    }
}

/// Where insertion sort puts one sibling into an already handled sequence.
pub open spec fn insert_entry(x: TreeEntry, s: Seq<TreeEntry>) -> Seq<TreeEntry>
    decreases s.len(),
{
    if s.len() == 0 {
        seq![x]
    } else if entry_le(x, s[0]) {
        seq![x] + s
    } else {
        seq![s[0]] + insert_entry(x, s.drop_first())
    }
}

/// Insertion sort of a directory's children, child by child from the left.
pub open spec fn sort_entries(s: Seq<TreeEntry>) -> Seq<TreeEntry>
    decreases s.len(),
{
    if s.len() == 0 {
        s
    } else {
        insert_entry(s.last(), sort_entries(s.drop_last()))
    }
}

proof fn lemma_insert_entry_at(x: TreeEntry, s: Seq<TreeEntry>, j: int)
    requires
        0 <= j <= s.len(),
        forall|k: int| 0 <= k < j ==> !entry_le(x, s[k]),
        j < s.len() ==> entry_le(x, s[j]),
    ensures
        insert_entry(x, s) == s.take(j) + seq![x] + s.skip(j),
    decreases j,
{
    if j == 0 {
        if s.len() == 0 {
            assert(insert_entry(x, s) =~= s.take(0) + seq![x] + s.skip(0));
        } else {
            assert(seq![x] + s =~= s.take(0) + seq![x] + s.skip(0));
        }
    } else {
        let rest = s.drop_first();
        assert(forall|k: int| 0 <= k < j - 1 ==> !entry_le(x, rest[k]));
        lemma_insert_entry_at(x, rest, j - 1);
        assert(seq![s[0]] + (rest.take(j - 1) + seq![x] + rest.skip(j - 1)) =~= s.take(j) + seq![x]
            + s.skip(j));
    }
}

/// The greater of a node's height and a running height.
proof fn lemma_height_in_seq(s: Seq<TreeEntry>, i: int)
    requires
        0 <= i < s.len(),
    ensures
        height(s[i]) <= heights(s),
    decreases s.len(),
{
    if i > 0 {
        lemma_height_in_seq(s.drop_first(), i - 1);
    }
}

proof fn lemma_heights_insert(x: TreeEntry, s: Seq<TreeEntry>)
    ensures
        heights(insert_entry(x, s)) == if height(x) > heights(s) {
            height(x)
        } else {
            heights(s)
        },
    decreases s.len(),
{
    if s.len() == 0 {
        assert(insert_entry(x, s) == seq![x]);
        assert(seq![x].drop_first() =~= Seq::<TreeEntry>::empty());
        assert(seq![x].len() == 1);
        assert(seq![x][0] == x);
        assert(heights(Seq::<TreeEntry>::empty()) == 0);
        assert(heights(seq![x]) == height(x));
        assert(heights(s) == 0);
        assert(height(x) > 0);
    } else if entry_le(x, s[0]) {
        assert(insert_entry(x, s) == seq![x] + s);
        assert((seq![x] + s).drop_first() =~= s);
        assert((seq![x] + s)[0] == x);
        assert(heights(seq![x] + s) == if height(x) > heights(s) {
            height(x)
        } else {
            heights(s)
        });
    } else {
        let rest = s.drop_first();
        lemma_heights_insert(x, rest);
        let t = seq![s[0]] + insert_entry(x, rest);
        assert(insert_entry(x, s) == t);
        assert(t.drop_first() =~= insert_entry(x, rest));
        assert(t[0] == s[0]);
        assert(heights(t) == if height(s[0]) > heights(insert_entry(x, rest)) {
            height(s[0])
        } else {
            heights(insert_entry(x, rest))
        });
        assert(heights(s) == if height(s[0]) > heights(rest) {
            height(s[0])
        } else {
            heights(rest)
        });
    }
}

proof fn lemma_heights_sort(s: Seq<TreeEntry>)
    ensures
        heights(sort_entries(s)) == heights(s),
    decreases s.len(),
{
    if s.len() > 0 {
        let head = s.drop_last();
        lemma_heights_sort(head);
        lemma_heights_insert(s.last(), sort_entries(head));
        lemma_heights_last(s);
    }
}

proof fn lemma_heights_last(s: Seq<TreeEntry>)
    requires
        s.len() > 0,
    ensures
        heights(s) == if height(s.last()) > heights(s.drop_last()) {
            height(s.last())
        } else {
            heights(s.drop_last())
        },
    decreases s.len(),
{
    if s.len() == 1 {
        assert(s.drop_first() =~= Seq::<TreeEntry>::empty());
        assert(s.drop_last() =~= Seq::<TreeEntry>::empty());
    } else {
        lemma_heights_last(s.drop_first());
        assert(s.drop_first().drop_last() =~= s.drop_last().drop_first());
        assert(s.drop_first().last() == s.last());
        assert(s.drop_last()[0] == s[0]);
    }
}

/// The listing lines for a sequence of siblings, each line preceded by a
/// newline: branch markers distinguish the last sibling, and a directory's
/// children follow it with the prefix extended by a continuation bar or
/// blank padding.
pub open spec fn lines_list(s: Seq<TreeEntry>, prefix: Seq<char>) -> Seq<char>
    decreases heights(s), s.len(),
    via lines_list_decreases
{
    if s.len() == 0 {
        Seq::empty()
    } else {
        let is_last = s.len() == 1;
        let branch = if is_last {
            "\u{2514}\u{2500}\u{2500} "@
        } else {
            "\u{251c}\u{2500}\u{2500} "@
        };
        let line = "\n"@ + prefix + branch + s[0].name@;
        let sub = if s[0].is_dir {
            let ext = if is_last {
                "    "@
            } else {
                "\u{2502}   "@
            };
            lines_list(sort_entries(s[0].children@), prefix + ext)
        } else {
            Seq::empty()
        };
        line + sub + lines_list(s.drop_first(), prefix)
    }
}

#[via_fn]
proof fn lines_list_decreases(s: Seq<TreeEntry>, prefix: Seq<char>) {
    if s.len() != 0 {
        lemma_height_in_seq(s, 0);
        if s[0].is_dir {
            lemma_heights_sort(s[0].children@);
        }
        if s.len() > 1 {
            lemma_heights_drop_first(s);
        }
    }
}

proof fn lemma_heights_drop_first(s: Seq<TreeEntry>)
    requires
        s.len() > 0,
    ensures
        heights(s.drop_first()) <= heights(s),
{
}

/// The whole tree listing: the root's name, then the lines of its children
/// sorted directories-first.
pub open spec fn tree_text_of(root: TreeEntry) -> Seq<char> {
    root.name@ + lines_list(sort_entries(root.children@), Seq::empty())
}

/// The nodes a sequence of references points at.
pub open spec fn refs_views(s: Seq<&TreeEntry>) -> Seq<TreeEntry> {
    s.map_values(|r: &TreeEntry| *r)
}

fn entry_le_exec(a: &TreeEntry, b: &TreeEntry) -> (r: bool)
    ensures
        r == entry_le(*a, *b),
{
    if a.is_dir && !b.is_dir {
        true
    } else if !a.is_dir && b.is_dir {
        false
    } else {
        crate::utils::str_le(a.name.as_str(), b.name.as_str())
    }
}

fn insert_entry_ref<'a>(acc: &mut Vec<&'a TreeEntry>, x: &'a TreeEntry)
    ensures
        refs_views(final(acc)@) == insert_entry(*x, refs_views(old(acc)@)),
{
    let ghost s = refs_views(acc@);
    let mut j: usize = 0;
    while j < acc.len() && !entry_le_exec(x, acc[j])
        invariant
            s == refs_views(acc@),
            j <= acc.len(),
            forall|k: int| 0 <= k < j ==> !entry_le(*x, s[k]),
        decreases acc.len() - j,
    {
        j += 1;
    }
    proof {
        lemma_insert_entry_at(*x, s, j as int);
    }
    acc.insert(j, x);
    proof {
        assert(refs_views(acc@) =~= s.take(j as int) + seq![*x] + s.skip(j as int));
    }
}

fn sorted_children<'a>(children: &'a Vec<TreeEntry>) -> (r: Vec<&'a TreeEntry>)
    ensures
        refs_views(r@) == sort_entries(children@),
{
    let mut acc: Vec<&TreeEntry> = Vec::new();
    let n = children.len();
    proof {
        assert(refs_views(acc@) =~= sort_entries(children@.take(0)));
    }
    let mut i: usize = 0;
    while i < n
        invariant
            n == children@.len(),
            i <= n,
            refs_views(acc@) == sort_entries(children@.take(i as int)),
        decreases n - i,
    {
        insert_entry_ref(&mut acc, &children[i]);
        proof {
            assert(children@.take(i + 1).drop_last() =~= children@.take(i as int));
            assert(children@.take(i + 1).last() == children@[i as int]);
        }
        i += 1;
    }
    proof {
        assert(children@.take(n as int) =~= children@);
    }
    acc
}

/// Append the listing lines of a directory's children, sorted, to `out`.
fn render_children(children: &Vec<TreeEntry>, prefix: &str, out: &mut String)
    ensures
        final(out)@ == old(out)@ + lines_list(sort_entries(children@), prefix@),
    decreases heights(children@),
{
    let order = sorted_children(children);
    let ghost sorted = sort_entries(children@);
    let n = order.len();
    proof {
        assert(sorted.skip(0) =~= sorted);
    }
    let mut k: usize = 0;
    while k < n
        invariant
            n == order@.len(),
            k <= n,
            refs_views(order@) == sorted,
            sorted == sort_entries(children@),
            out@ + lines_list(sorted.skip(k as int), prefix@) == old(out)@ + lines_list(
                sorted,
                prefix@,
            ),
        decreases n - k,
    {
        let node = order[k];
        proof {
            assert(*node == sorted[k as int]);
        }
        out.append("\n");
        out.append(prefix);
        if k == n - 1 {
            out.append("\u{2514}\u{2500}\u{2500} ");
        } else {
            out.append("\u{251c}\u{2500}\u{2500} ");
        }
        out.append(node.name.as_str());
        let ghost rem = sorted.skip(k as int);
        proof {
            assert(rem[0] == sorted[k as int]);
            assert(rem.drop_first() =~= sorted.skip(k + 1));
            assert(rem.len() == n - k);
        }
        if node.is_dir {
            let mut p2 = String::from_str(prefix);
            if k == n - 1 {
                p2.append("    ");
            } else {
                p2.append("\u{2502}   ");
            }
            proof {
                lemma_heights_sort(children@);
                lemma_height_in_seq(sorted, k as int);
            }
            render_children(&node.children, p2.as_str(), out);
        }
        proof {
            assert(out@ + lines_list(sorted.skip(k + 1), prefix@) == old(out)@ + lines_list(
                sorted,
                prefix@,
            )) by {
                assert(lines_list(rem, prefix@) == ({
                    let is_last = rem.len() == 1;
                    let branch = if is_last {
                        "\u{2514}\u{2500}\u{2500} "@
                    } else {
                        "\u{251c}\u{2500}\u{2500} "@
                    };
                    let line = "\n"@ + prefix@ + branch + rem[0].name@;
                    let sub = if rem[0].is_dir {
                        let ext = if is_last {
                            "    "@
                        } else {
                            "\u{2502}   "@
                        };
                        lines_list(sort_entries(rem[0].children@), prefix@ + ext)
                    } else {
                        Seq::empty()
                    };
                    line + sub + lines_list(rem.drop_first(), prefix@)
                }));
            }
        }
        k += 1;
    }
    proof {
        assert(sorted.skip(n as int) =~= Seq::<TreeEntry>::empty());
        assert(out@ + lines_list(sorted.skip(n as int), prefix@) =~= out@);
    }
}

/// Produce the tree-style listing of a directory tree: the root's name on
/// the first line, then one line per node, directories before files and
/// alphabetical within each group at every level.
pub fn generate_tree_fallback(root: &TreeEntry) -> (r: String)
    ensures
        r@ == tree_text_of(*root),
{
    let mut out = String::from_str(root.name.as_str());
    proof {
        assert(""@ =~= Seq::<char>::empty()) by {
            reveal_strlit("");
        }
    }
    render_children(&root.children, "", &mut out);
    out
}

/// Produce the tree-style listing of a directory tree.
pub fn generate_tree(root: &TreeEntry) -> (r: String)
    ensures
        r@ == tree_text_of(*root),
{
    generate_tree_fallback(root)
}

} // verus!
