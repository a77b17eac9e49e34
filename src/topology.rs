//! The topology artifacts: a graph description with one block per segment
//! and a table with one row per segment, both in name order; and the
//! `name=number` arguments handed to the legacy bridge.
use crate::decimal::{dec, decimal};
use crate::model::{vlan_names, Vlan};
use crate::text::{lemma_text_order_total, sort_texts, text_order, texts};
use vstd::prelude::*;

verus! {

/// An entity that renders itself as a diagram block and as a table row.
pub trait Render {
    spec fn diagram_text(&self) -> Seq<char>;

    spec fn table_text(&self) -> Seq<char>;

    fn render_diagram(&self) -> (r: String)
        ensures
            r@ == self.diagram_text(),
    ;

    fn render_table_row(&self) -> (r: String)
        ensures
            r@ == self.table_text(),
    ;
}

pub open spec fn quoted(s: Seq<char>) -> Seq<char> {
    seq!['"'] + s + seq!['"']
}

/// One edge line per initiate target, in order.
pub open spec fn edge_lines(name: Seq<char>, targets: Seq<Seq<char>>) -> Seq<char>
    decreases targets.len(),
{
    if targets.len() == 0 {
        Seq::empty()
    } else {
        edge_lines(name, targets.drop_last()) + seq![' ', ' ', ' ', ' '] + quoted(name) + seq![
            ' ',
            '-',
            '>',
            ' ',
        ] + quoted(targets.last()) + seq![';', '\n']
    }
}

pub open spec fn vlan_diagram(v: Vlan) -> Seq<char> {
    seq![' ', ' ', ' ', ' '] + quoted(v.name@) + seq![' ', '[', 'l', 'a', 'b', 'e', 'l', '=', '"']
        + v.name@ + seq![' ', '('] + dec(v.number as nat) + seq![')', '"', ']', ';', '\n']
        + edge_lines(v.name@, texts(v.initiate@))
}

pub open spec fn cell(s: Seq<char>) -> Seq<char> {
    s + seq![' ', '|', ' ']
}

pub open spec fn vlan_row(v: Vlan) -> Seq<char> {
    seq!['|', ' '] + cell(v.cell@) + cell(v.name@) + cell(v.lan@) + cell(dec(v.number as nat))
        + cell(v.owner@) + v.description@ + seq![' ', '|', '\n']
}

impl Render for Vlan {
    open spec fn diagram_text(&self) -> Seq<char> {
        vlan_diagram(*self)
    }

    open spec fn table_text(&self) -> Seq<char> {
        vlan_row(*self)
    }

    fn render_diagram(&self) -> (r: String) {
        proof {
            reveal_strlit("    ");
            reveal_strlit("\"");
            reveal_strlit(" [label=\"");
            reveal_strlit(" (");
            reveal_strlit(")\"];\n");
            reveal_strlit(" -> ");
            reveal_strlit(";\n");
        }
        let mut s = String::from_str("    ");
        s.append("\"");
        s.append(self.name.as_str());
        s.append("\"");
        s.append(" [label=\"");
        s.append(self.name.as_str());
        s.append(" (");
        s.append(decimal(self.number as u64).as_str());
        s.append(")\"];\n");
        proof {
            assert(s@ + edge_lines(self.name@, texts(self.initiate@.take(0))) =~= vlan_diagram(
                *self,
            ).take(s@.len() as int));
            assert(texts(self.initiate@.take(0)) =~= Seq::<Seq<char>>::empty());
        }
        let ghost head = s@;
        let mut i: usize = 0;
        while i < self.initiate.len()
            invariant
                i <= self.initiate@.len(),
                s@ == head + edge_lines(self.name@, texts(self.initiate@.take(i as int))),
            decreases self.initiate@.len() - i,
        {
            s.append("    ");
            s.append("\"");
            s.append(self.name.as_str());
            s.append("\"");
            s.append(" -> ");
            s.append("\"");
            s.append(self.initiate[i].as_str());
            s.append("\"");
            s.append(";\n");
            proof {
                reveal_strlit("    ");
                reveal_strlit("\"");
                reveal_strlit(" -> ");
                reveal_strlit(";\n");
                assert(texts(self.initiate@.take(i + 1)).drop_last() =~= texts(
                    self.initiate@.take(i as int),
                ));
                assert(texts(self.initiate@.take(i + 1)).last() == self.initiate@[i as int]@);
                assert(s@ =~= head + edge_lines(self.name@, texts(self.initiate@.take(i + 1))));
            }
            i = i + 1;
        }
        proof {
            assert(self.initiate@.take(i as int) =~= self.initiate@);
            assert(s@ =~= vlan_diagram(*self));
        }
        s
    }

    fn render_table_row(&self) -> (r: String) {
        proof {
            reveal_strlit("| ");
            reveal_strlit(" | ");
            reveal_strlit(" |\n");
        }
        let mut s = String::from_str("| ");
        s.append(self.cell.as_str());
        s.append(" | ");
        s.append(self.name.as_str());
        s.append(" | ");
        s.append(self.lan.as_str());
        s.append(" | ");
        s.append(decimal(self.number as u64).as_str());
        s.append(" | ");
        s.append(self.owner.as_str());
        s.append(" | ");
        s.append(self.description.as_str());
        s.append(" |\n");
        proof {
            assert(s@ =~= vlan_row(*self));
        }
        s
    }
}

pub open spec fn diagram_header() -> Seq<char> {
    "digraph g {\n    size=\"6,6\";\n    node [color=lightblue2, style=filled];\n"@
}

pub open spec fn table_header() -> Seq<char> {
    "| cell | segment | lan | vlan | owner | description |\n| --- | --- | --- | --- | --- | --- |\n"@
}

pub open spec fn diagram_footer() -> Seq<char> {
    seq!['}', '\n']
}

/// Index of the first segment named `name` (the length if there is none).
pub open spec fn index_of_name(vlans: Seq<Vlan>, name: Seq<char>) -> int
    decreases vlans.len(),
{
    if vlans.len() == 0 {
        0
    } else if vlans[0].name@ == name {
        0
    } else {
        1 + index_of_name(vlans.drop_first(), name)
    }
}

/// The segment names in text order.
pub open spec fn sorted_names(vlans: Seq<Vlan>) -> Seq<Seq<char>> {
    vlan_names(vlans).sort_by(text_order())
}

fn find_named(vlans: &Vec<Vlan>, name: &String) -> (r: usize)
    ensures
        r as int == index_of_name(vlans@, name@),
        r <= vlans@.len(),
{
    let mut i: usize = 0;
    proof {
        assert(vlans@.skip(0) =~= vlans@);
    }
    while i < vlans.len()
        invariant
            i <= vlans@.len(),
            index_of_name(vlans@, name@) == i + index_of_name(vlans@.skip(i as int), name@),
        decreases vlans@.len() - i,
    {
        if vlans[i].name == *name {
            return i;
        }
        proof {
            assert(vlans@.skip(i as int).drop_first() =~= vlans@.skip(i + 1));
        }
        i = i + 1;
    }
    i
}

proof fn lemma_names_found(vlans: Seq<Vlan>, name: Seq<char>)
    requires
        vlan_names(vlans).contains(name),
    ensures
        0 <= index_of_name(vlans, name) < vlans.len(),
        vlans[index_of_name(vlans, name)].name@ == name,
    decreases vlans.len(),
{
    let k = choose|k: int| 0 <= k < vlan_names(vlans).len() && vlan_names(vlans)[k] == name;
    if vlans[0].name@ != name {
        assert(k != 0);
        assert(vlan_names(vlans.drop_first())[k - 1] == name);
        lemma_names_found(vlans.drop_first(), name);
    }
}


/// The two topology artifacts, each as the blocks to write in order.
pub struct VlanOutputs {
    pub diagram: Vec<String>,
    pub table: Vec<String>,
}

pub open spec fn diagram_blocks(vlans: Seq<Vlan>) -> Seq<Seq<char>> {
    sorted_names(vlans).map_values(
        |n: Seq<char>| vlan_diagram(vlans[index_of_name(vlans, n)]),
    )
}

pub open spec fn table_rows(vlans: Seq<Vlan>) -> Seq<Seq<char>> {
    sorted_names(vlans).map_values(|n: Seq<char>| vlan_row(vlans[index_of_name(vlans, n)]))
}

/// Renders the graph description (header, one block per segment in name
/// order, footer) and the table (header, one row per segment in name order).
pub fn create_vlan_outputs(vlans: &Vec<Vlan>) -> (r: VlanOutputs)
    requires
        vlan_names(vlans@).no_duplicates(),
    ensures
        texts(r.diagram@) == seq![diagram_header()] + diagram_blocks(vlans@) + seq![
            diagram_footer(),
        ],
        texts(r.table@) == seq![table_header()] + table_rows(vlans@),
{
    let mut names: Vec<String> = Vec::new();
    let mut i: usize = 0;
    while i < vlans.len()
        invariant
            i <= vlans@.len(),
            texts(names@) == vlan_names(vlans@.take(i as int)),
        decreases vlans@.len() - i,
    {
        let ghost before = names@;
        let name = vlans[i].name.clone();
        names.push(name);
        proof {
            assert(texts(names@) =~= texts(before).push(name@));
            assert(vlan_names(vlans@.take(i + 1)) =~= vlan_names(vlans@.take(i as int)).push(name@));
        }
        i = i + 1;
    }
    proof {
        assert(vlans@.take(i as int) =~= vlans@);
        lemma_text_order_total();
        vlan_names(vlans@).lemma_sort_by_ensures(text_order());
    }
    let sorted = sort_texts(names);
    let mut diagram: Vec<String> = Vec::new();
    let mut table: Vec<String> = Vec::new();
    diagram.push(
        String::from_str("digraph g {\n    size=\"6,6\";\n    node [color=lightblue2, style=filled];\n"),
    );
    table.push(
        String::from_str(
            "| cell | segment | lan | vlan | owner | description |\n| --- | --- | --- | --- | --- | --- |\n",
        ),
    );
    let ghost sn = sorted_names(vlans@);
    let mut k: usize = 0;
    proof {
        assert(texts(diagram@) =~= seq![diagram_header()] + diagram_blocks(vlans@).take(0));
        assert(texts(table@) =~= seq![table_header()] + table_rows(vlans@).take(0));
    }
    while k < sorted.len()
        invariant
            texts(sorted@) == sn,
            sn == sorted_names(vlans@),
            forall|x: Seq<char>| #[trigger] sn.contains(x) ==> vlan_names(vlans@).contains(x),
            k <= sorted@.len(),
            texts(diagram@) == seq![diagram_header()] + diagram_blocks(vlans@).take(k as int),
            texts(table@) == seq![table_header()] + table_rows(vlans@).take(k as int),
        decreases sorted@.len() - k,
    {
        let idx = find_named(vlans, &sorted[k]);
        proof {
            assert(sn[k as int] == sorted@[k as int]@);
            assert(sn.contains(sn[k as int]));
            lemma_names_found(vlans@, sn[k as int]);
        }
        let block = vlans[idx].render_diagram();
        let row = vlans[idx].render_table_row();
        let ghost d0 = texts(diagram@);
        let ghost t0 = texts(table@);
        diagram.push(block);
        table.push(row);
        proof {
            assert(texts(diagram@) =~= d0.push(block@));
            assert(texts(table@) =~= t0.push(row@));
            assert(diagram_blocks(vlans@).take(k + 1) =~= diagram_blocks(vlans@).take(k as int).push(
                block@,
            ));
            assert(table_rows(vlans@).take(k + 1) =~= table_rows(vlans@).take(k as int).push(row@));
        }
        k = k + 1;
    }
    let ghost d1 = texts(diagram@);
    let footer = String::from_str("}\n");
    diagram.push(footer);
    proof {
        reveal_strlit("}\n");
        assert(footer@ =~= diagram_footer());
        assert(diagram_blocks(vlans@).take(k as int) =~= diagram_blocks(vlans@));
        assert(table_rows(vlans@).take(k as int) =~= table_rows(vlans@));
        assert(texts(diagram@) =~= d1.push(diagram_footer()));
    }
    VlanOutputs { diagram, table }
}

/// The argument for one segment handed to the legacy bridge: `name=number`.
pub open spec fn vlan_arg(v: Vlan) -> Seq<char> {
    v.name@ + seq!['='] + dec(v.number as nat)
}

/// The legacy bridge's arguments, one `name=number` per segment, in order.
pub fn legacy_args(vlans: &Vec<Vlan>) -> (r: Vec<String>)
    requires
        vlan_names(vlans@).no_duplicates(),
    ensures
        texts(r@) == vlans@.map_values(|v: Vlan| vlan_arg(v)),
{
    let mut out: Vec<String> = Vec::new();
    let mut i: usize = 0;
    while i < vlans.len()
        invariant
            i <= vlans@.len(),
            texts(out@) == vlans@.take(i as int).map_values(|v: Vlan| vlan_arg(v)),
        decreases vlans@.len() - i,
    {
        let v = &vlans[i];
        let mut s = v.name.clone();
        s.append("=");
        s.append(decimal(v.number as u64).as_str());
        proof {
            reveal_strlit("=");
        }
        let ghost before = texts(out@);
        out.push(s);
        proof {
            assert(texts(out@) =~= before.push(s@));
            assert(s@ =~= vlan_arg(vlans@[i as int]));
            assert(vlans@.take(i + 1).map_values(|v: Vlan| vlan_arg(v)) =~= vlans@.take(
                i as int,
            ).map_values(|v: Vlan| vlan_arg(v)).push(vlan_arg(vlans@[i as int])));
        }
        i = i + 1;
    }
    proof {
        assert(vlans@.take(i as int) =~= vlans@);
    }
    out
}

} // verus!
