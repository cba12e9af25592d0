//! Store-file statistics rendering: turns the header section of each store
//! file into the text the statistics viewer prints.
//!
//! Reading a header out of a file is the caller's work; the lines printed
//! for what was read are produced here, exactly as specified.

use vstd::prelude::*;

use crate::errors::StoreError;

verus! {

/// The header of one store file, as read by the caller: the file's name and
/// the header's statements, each a predicate with its printed object.
pub struct HdtFileInfo {
    pub name: String,
    pub header: Vec<(String, String)>,
}

/// One rendered header line: the indent, a tab, the predicate, a separator,
/// the object, a newline.
pub open spec fn render_line(indent: Seq<char>, e: (String, String)) -> Seq<char> {
    indent + "\t"@ + e.0@ + ": "@ + e.1@ + "\n"@
}

/// The rendered header statements of one file, in order.
pub open spec fn render_header(indent: Seq<char>, header: Seq<(String, String)>) -> Seq<char>
    decreases header.len(),
{
    if header.len() == 0 {
        Seq::empty()
    } else {
        render_header(indent, header.drop_last()) + render_line(indent, header.last())
    }
}

/// The rendered block of one file: its name, a colon, then its header.
pub open spec fn render_info(indent: Seq<char>, info: HdtFileInfo) -> Seq<char> {
    indent + info.name@ + ":\n"@ + render_header(indent, info.header@)
}

/// The rendered blocks of all files, in order.
pub open spec fn render_infos(indent: Seq<char>, infos: Seq<HdtFileInfo>) -> Seq<char>
    decreases infos.len(),
{
    if infos.len() == 0 {
        Seq::empty()
    } else {
        render_infos(indent, infos.drop_last()) + render_info(indent, infos.last())
    }
}

/// Renders the statistics of the given store files, one block per file,
/// each line prefixed by the indent.
pub fn show_content(infos: &Vec<HdtFileInfo>, indent: &String) -> (r: String)
    ensures
        r@ == render_infos(indent@, infos@),
{
    let mut r = String::new();
    let mut i: usize = 0;
    proof {
        assert(infos@.subrange(0, 0) =~= Seq::<HdtFileInfo>::empty());
    }
    while i < infos.len()
        invariant
            0 <= i <= infos@.len(),
            r@ == render_infos(indent@, infos@.subrange(0, i as int)),
        decreases infos@.len() - i,
    {
        let info = &infos[i];
        r.append(indent.as_str());
        r.append(info.name.as_str());
        r.append(":\n");
        let ghost base = r@;
        let mut j: usize = 0;
        proof {
            assert(info.header@.subrange(0, 0) =~= Seq::<(String, String)>::empty());
            assert(base =~= base + render_header(indent@, info.header@.subrange(0, 0)));
        }
        while j < info.header.len()
            invariant
                0 <= j <= info.header@.len(),
                r@ == base + render_header(indent@, info.header@.subrange(0, j as int)),
            decreases info.header@.len() - j,
        {
            let e = &info.header[j];
            r.append(indent.as_str());
            r.append("\t");
            r.append(e.0.as_str());
            r.append(": ");
            r.append(e.1.as_str());
            r.append("\n");
            proof {
                let pre = info.header@.subrange(0, j as int);
                let cur = info.header@.subrange(0, j + 1 as int);
                assert(cur.drop_last() =~= pre);
                assert(cur.last() == info.header@[j as int]);
                assert(r@ =~= base + render_header(indent@, cur));
            }
            j = j + 1;
        }
        proof {
            let pre = infos@.subrange(0, i as int);
            let cur = infos@.subrange(0, i + 1 as int);
            assert(cur.drop_last() =~= pre);
            assert(cur.last() == infos@[i as int]);
            assert(info.header@.subrange(0, info.header@.len() as int) =~= info.header@);
            assert(r@ =~= render_infos(indent@, cur));
        }
        i = i + 1;
    }
    proof {
        assert(infos@.subrange(0, infos@.len() as int) =~= infos@);
    }
    r
}

/// Renders the statistics of the given store files with no indent; the
/// caller reads each file's header and prints what comes back.
pub fn view_hdt(infos: &Vec<HdtFileInfo>) -> (r: Result<String, StoreError>)
    ensures
        r matches Ok(s) && s@ == render_infos(Seq::<char>::empty(), infos@),
{
    let out = show_content(infos, &String::new());
    Ok(out)
}

} // verus!
