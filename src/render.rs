//! The reduced text form of a directory report: for each file that defines
//! something, a header line with its path and one line per declaration, a
//! member named after its class.

use vstd::prelude::*;
use vstd::string::*;
use crate::model::{ClassRecord, DeclView, Declaration, DirectoryReport, FileReport, FileReportView, decls_view};

verus! {

/// One line per declaration, its name preceded by `prefix`.
pub open spec fn decl_lines(ds: Seq<DeclView>, prefix: Seq<char>) -> Seq<char>
    decreases ds.len(),
{
    if ds.len() == 0 {
        Seq::empty()
    } else {
        decl_lines(ds.drop_last(), prefix) + "  - "@ + prefix + ds.last().name + "\n"@
    }
}

/// The lines of the members of each class, named `Class::member`.
pub open spec fn class_lines(cs: Seq<(Seq<char>, Seq<DeclView>)>) -> Seq<char>
    decreases cs.len(),
{
    if cs.len() == 0 {
        Seq::empty()
    } else {
        class_lines(cs.drop_last()) + decl_lines(cs.last().1, cs.last().0 + "::"@)
    }
}

/// Whether a file report lists any declaration.
pub open spec fn has_entries(f: FileReportView) -> bool {
    f.functions.len() > 0 || exists|c: int| 0 <= c < f.classes.len() && (#[trigger] f.classes[c]).1.len() > 0
}

/// The text of one file: empty where it lists nothing.
pub open spec fn file_text(f: FileReportView) -> Seq<char> {
    if has_entries(f) {
        "文件: "@ + f.path + "\n"@ + decl_lines(f.functions, Seq::empty()) + class_lines(f.classes)
    } else {
        Seq::empty()
    }
}

/// The text of all files, in order.
pub open spec fn inventory_text(files: Seq<FileReportView>) -> Seq<char>
    decreases files.len(),
{
    if files.len() == 0 {
        Seq::empty()
    } else {
        inventory_text(files.drop_last()) + file_text(files.last())
    }
}

fn append_decl_lines(out: &mut String, ds: &Vec<Declaration>, prefix: &str)
    ensures
        final(out)@ == old(out)@ + decl_lines(decls_view(ds@), prefix@),
{
    let mut i: usize = 0;
    while i < ds.len()
        invariant
            i <= ds@.len(),
            out@ == old(out)@ + decl_lines(decls_view(ds@.take(i as int)), prefix@),
        decreases ds@.len() - i,
    {
        out.append("  - ");
        out.append(prefix);
        out.append(ds[i].name.as_str());
        out.append("\n");
        proof {
            let t = decls_view(ds@.take(i as int + 1));
            assert(t.drop_last() =~= decls_view(ds@.take(i as int)));
            assert(t.last() == ds@[i as int]@);
            assert(out@ =~= old(out)@ + decl_lines(t, prefix@));
        }
        i = i + 1;
    }
    assert(ds@.take(ds@.len() as int) =~= ds@);
}

fn append_file(out: &mut String, f: &FileReport)
    ensures
        final(out)@ == old(out)@ + file_text(f@),
{
    let mut any = f.functions.len() > 0;
    let mut c: usize = 0;
    while c < f.classes.len()
        invariant
            c <= f.classes@.len(),
            any == (f.functions@.len() > 0 || exists|k: int| 0 <= k < c && (#[trigger] f@.classes[k]).1.len() > 0),
        decreases f.classes@.len() - c,
    {
        assert(f@.classes[c as int].1.len() == f.classes@[c as int].methods@.len());
        if f.classes[c].methods.len() > 0 {
            any = true;
        }
        proof {
            if any && !(f.functions@.len() > 0) && !(exists|k: int| 0 <= k < c && (#[trigger] f@.classes[k]).1.len() > 0) {
                assert(f@.classes[c as int].1.len() > 0);
            }
        }
        c = c + 1;
    }
    assert(any == has_entries(f@));
    if !any {
        assert(old(out)@ + file_text(f@) =~= old(out)@);
        return;
    }
    out.append("文件: ");
    out.append(f.path.as_str());
    out.append("\n");
    let ghost header = out@;
    proof {
        reveal_strlit("");
        assert(""@ =~= Seq::<char>::empty());
    }
    append_decl_lines(out, &f.functions, "");
    let ghost head = out@;
    assert(head == header + decl_lines(f@.functions, Seq::empty()));
    let mut k: usize = 0;
    while k < f.classes.len()
        invariant
            k <= f.classes@.len(),
            out@ == head + class_lines(f@.classes.take(k as int)),
        decreases f.classes@.len() - k,
    {
        let record: &ClassRecord = &f.classes[k];
        let mut prefix = record.name.clone();
        prefix.append("::");
        append_decl_lines(out, &record.methods, prefix.as_str());
        proof {
            let t = f@.classes.take(k as int + 1);
            assert(t.drop_last() =~= f@.classes.take(k as int));
            assert(t.last() == f@.classes[k as int]);
            assert(out@ =~= head + class_lines(t));
        }
        k = k + 1;
    }
    assert(f@.classes.take(f@.classes.len() as int) =~= f@.classes);
    assert(out@ =~= old(out)@ + file_text(f@));
}

/// Renders the reduced text form of a directory report.
pub fn render_inventory(report: &DirectoryReport) -> (r: String)
    ensures
        r@ == inventory_text(report@),
{
    let mut out = String::new();
    let mut i: usize = 0;
    while i < report.files.len()
        invariant
            i <= report.files@.len(),
            out@ == inventory_text(report@.take(i as int)),
        decreases report.files@.len() - i,
    {
        append_file(&mut out, &report.files[i]);
        proof {
            let t = report@.take(i as int + 1);
            assert(t.drop_last() =~= report@.take(i as int));
            assert(t.last() == report.files@[i as int]@);
        }
        i = i + 1;
    }
    assert(report@.take(report@.len() as int) =~= report@);
    out
}

} // verus!
