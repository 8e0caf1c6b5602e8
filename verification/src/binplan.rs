//! The binaries a package exposes: under which names the linker links them,
//! where it expects their shims, and how it judges a shim it finds.

use crate::manifest::{bin_entries_spec, pairs_view, BinField};
use crate::paths::{
    dotdot, join_path, join_path_spec, normal_components, normal_components_of,
    path_starts_with_lexically,
};
use crate::strs::{opt_view, strs_view};
use crate::text::{cat, owned, push_char, str_eq};
use vstd::prelude::*;
use vstd::string::StrSliceExecFns;

verus! {

/// The last component of a `/`-separated path when it is a normal one (not
/// `..`, not a root or a lone `.`), as `Path::file_name` reads it.
pub open spec fn file_name_spec(path: Seq<char>) -> Option<Seq<char>> {
    let cs = normal_components_of(path);
    if cs.len() > 0 && cs.last() != dotdot() {
        Some(cs.last())
    } else {
        None
    }
}

/// The last normal component of a path.
pub fn file_name(path: &str) -> (r: Option<String>)
    ensures
        opt_view(r) == file_name_spec(path@),
{
    let cs = normal_components(path);
    let ghost v = cs@.map_values(|s: String| s@);
    let n = cs.len();
    if n == 0 {
        return None;
    }
    let last = cs[n - 1].as_str();
    assert(v.last() == last@);
    let dd = "..";
    proof {
        reveal_strlit("..");
        assert(dd@ =~= dotdot());
    }
    if str_eq(last, dd) {
        None
    } else {
        Some(owned(last))
    }
}

/// The name a binary is exposed under: the last component of its declared
/// name (`@scope/tool` gives `tool`), or the whole name when it has none.
pub open spec fn flat_bin_name_spec(name: Seq<char>) -> Seq<char> {
    match file_name_spec(name) {
        Some(n) => n,
        None => name,
    }
}

/// The flattened name of a binary.
pub fn flat_bin_name(bin_name: &str) -> (r: String)
    ensures
        r@ == flat_bin_name_spec(bin_name@),
{
    match file_name(bin_name) {
        Some(n) => n,
        None => owned(bin_name),
    }
}

/// A binary to link: its declared name, the flattened name of its shim, and
/// its path inside the package.
#[derive(Debug, Clone)]
pub struct BinLink {
    pub name: String,
    pub flat_name: String,
    pub path: String,
}

pub open spec fn link_view(l: BinLink) -> (Seq<char>, Seq<char>, Seq<char>) {
    (l.name@, l.flat_name@, l.path@)
}

/// The entries with a non-empty name and path, each with its flattened name.
pub open spec fn usable_links(entries: Seq<(Seq<char>, Seq<char>)>) -> Seq<(Seq<char>, Seq<char>, Seq<char>)>
    decreases entries.len(),
{
    if entries.len() == 0 {
        seq![]
    } else {
        let rest = usable_links(entries.drop_last());
        let e = entries.last();
        if e.0.len() > 0 && e.1.len() > 0 {
            rest.push((e.0, flat_bin_name_spec(e.0), e.1))
        } else {
            rest
        }
    }
}

/// The binaries of a package named `pkg_name`: none when the package has no
/// name, else its usable bin entries in order.
pub open spec fn package_bin_links_spec(pkg_name: Seq<char>, bin: BinField) -> Seq<(Seq<char>, Seq<char>, Seq<char>)> {
    if pkg_name.len() == 0 {
        seq![]
    } else {
        usable_links(bin_entries_spec(bin, pkg_name))
    }
}

/// The binaries the linker links for a package.
pub fn package_bin_links(pkg_name: &str, bin: &BinField) -> (r: Vec<BinLink>)
    ensures
        r@.map_values(|l: BinLink| link_view(l)) == package_bin_links_spec(pkg_name@, *bin),
{
    let mut out: Vec<BinLink> = Vec::new();
    if pkg_name.unicode_len() == 0 {
        proof {
            assert(out@.map_values(|l: BinLink| link_view(l)) =~= seq![]);
        }
        return out;
    }
    let entries = bin.entries(pkg_name);
    let ghost es = pairs_view(entries@);
    proof {
        assert(out@.map_values(|l: BinLink| link_view(l)) =~= usable_links(es.take(0)));
    }
    let mut i: usize = 0;
    while i < entries.len()
        invariant
            i <= entries@.len(),
            es == pairs_view(entries@),
            es == bin_entries_spec(*bin, pkg_name@),
            out@.map_values(|l: BinLink| link_view(l)) == usable_links(es.take(i as int)),
        decreases entries@.len() - i,
    {
        let name = entries[i].0.as_str();
        let path = entries[i].1.as_str();
        let ghost before = out@.map_values(|l: BinLink| link_view(l));
        proof {
            assert(es.take(i as int + 1).drop_last() =~= es.take(i as int));
            assert(es.take(i as int + 1).last() == es[i as int]);
            assert(es[i as int] == (name@, path@));
        }
        if name.unicode_len() > 0 && path.unicode_len() > 0 {
            let l = BinLink { name: owned(name), flat_name: flat_bin_name(name), path: owned(path) };
            out.push(l);
            proof {
                assert(out@.map_values(|l: BinLink| link_view(l)) =~= before.push(
                    (name@, flat_bin_name_spec(name@), path@),
                ));
            }
        }
        i = i + 1;
    }
    proof {
        assert(es.take(es.len() as int) =~= es);
    }
    out
}

/// The names of the binaries a direct dependency declares: the package name
/// for the shorthand form (when the package has one), the command names
/// otherwise.
pub open spec fn bin_names_spec(name: Option<Seq<char>>, bin: BinField) -> Seq<Seq<char>> {
    match bin {
        BinField::Empty => seq![],
        BinField::Shorthand(_) => match name {
            Some(n) => seq![n],
            None => seq![],
        },
        BinField::Commands(m) => m.keys(),
    }
}

/// The declared binary names of a package.
pub fn direct_package_bin_names(name: &Option<String>, bin: &BinField) -> (r: Vec<String>)
    ensures
        strs_view(r@) == bin_names_spec(opt_view(*name), *bin),
{
    match bin {
        BinField::Empty => {
            let r: Vec<String> = Vec::new();
            proof {
                assert(strs_view(r@) =~= seq![]);
            }
            r
        },
        BinField::Shorthand(_) => match name {
            Some(n) => {
                let mut r: Vec<String> = Vec::new();
                r.push(owned(n.as_str()));
                proof {
                    assert(strs_view(r@) =~= seq![n@]);
                }
                r
            },
            None => {
                let r: Vec<String> = Vec::new();
                proof {
                    assert(strs_view(r@) =~= seq![]);
                }
                r
            },
        },
        BinField::Commands(m) => m.keys_vec(),
    }
}

pub open spec fn cmd_ext() -> Seq<char> {
    seq!['.', 'c', 'm', 'd']
}

pub open spec fn ps1_ext() -> Seq<char> {
    seq!['.', 'p', 's', '1']
}

/// The shims a binary should have under `bin_dir`: `<flat>.cmd` and
/// `<flat>.ps1` on Windows, `<flat>` elsewhere.
pub open spec fn expected_bin_shims_spec(bin_dir: Seq<char>, bin_name: Seq<char>, windows: bool) -> Seq<Seq<char>> {
    let flat = flat_bin_name_spec(bin_name);
    if windows {
        seq![join_path_spec(bin_dir, flat + cmd_ext()), join_path_spec(bin_dir, flat + ps1_ext())]
    } else {
        seq![join_path_spec(bin_dir, flat)]
    }
}

/// Where the shims of a binary are expected.
pub fn expected_bin_shims(bin_dir: &str, bin_name: &str, windows: bool) -> (r: Vec<String>)
    ensures
        strs_view(r@) == expected_bin_shims_spec(bin_dir@, bin_name@, windows),
{
    let flat = flat_bin_name(bin_name);
    let mut r: Vec<String> = Vec::new();
    if windows {
        let cmd = ".cmd";
        let ps1 = ".ps1";
        proof {
            reveal_strlit(".cmd");
            reveal_strlit(".ps1");
            assert(cmd@ =~= cmd_ext());
            assert(ps1@ =~= ps1_ext());
        }
        let a = cat(flat.as_str(), cmd);
        let b = cat(flat.as_str(), ps1);
        r.push(join_path(bin_dir, a.as_str()));
        r.push(join_path(bin_dir, b.as_str()));
        proof {
            assert(strs_view(r@) =~= expected_bin_shims_spec(bin_dir@, bin_name@, windows));
        }
    } else {
        r.push(join_path(bin_dir, flat.as_str()));
        proof {
            assert(strs_view(r@) =~= expected_bin_shims_spec(bin_dir@, bin_name@, windows));
        }
    }
    r
}

pub open spec fn node_modules_chars() -> Seq<char> {
    seq!['n', 'o', 'd', 'e', '_', 'm', 'o', 'd', 'u', 'l', 'e', 's']
}

/// A shim whose resolved target lies in the virtual store is sound only when
/// it points into a package, under some `node_modules`; a target elsewhere is
/// not the linker's to judge.
pub open spec fn shim_target_ok_spec(resolved: Seq<char>, virtual_store: Seq<char>) -> bool {
    let r = normal_components_of(resolved);
    let v = normal_components_of(virtual_store);
    !(v.len() <= r.len() && r.take(v.len() as int) == v) || r.contains(node_modules_chars())
}

/// Whether the resolved target of a bin shim is acceptable.
pub fn shim_target_ok(resolved: &str, virtual_store: &str) -> (r: bool)
    ensures
        r == shim_target_ok_spec(resolved@, virtual_store@),
{
    if !path_starts_with_lexically(resolved, virtual_store) {
        return true;
    }
    let cs = normal_components(resolved);
    let ghost v = cs@.map_values(|s: String| s@);
    let nm = "node_modules";
    proof {
        reveal_strlit("node_modules");
        assert(nm@ =~= node_modules_chars());
    }
    let mut i: usize = 0;
    while i < cs.len()
        invariant
            i <= cs@.len(),
            v == cs@.map_values(|s: String| s@),
            v == normal_components_of(resolved@),
            nm@ == node_modules_chars(),
            forall|j: int| 0 <= j < i ==> v[j] != node_modules_chars(),
        decreases cs@.len() - i,
    {
        if str_eq(cs[i].as_str(), nm) {
            assert(v[i as int] == node_modules_chars());
            return true;
        }
        i = i + 1;
    }
    false
}

/// `s` with every `from` replaced by `to`.
pub open spec fn replace_char_spec(s: Seq<char>, from: char, to: char) -> Seq<char> {
    s.map_values(|c: char| if c == from { to } else { c })
}

/// Replaces every occurrence of one character by another.
pub fn replace_char(s: &str, from: char, to: char) -> (r: String)
    ensures
        r@ == replace_char_spec(s@, from, to),
{
    let mut out = String::new();
    let n = s.unicode_len();
    let mut i: usize = 0;
    while i < n
        invariant
            n == s@.len(),
            i <= n,
            out@ == replace_char_spec(s@.take(i as int), from, to),
        decreases n - i,
    {
        let c = s.get_char(i);
        let d = if c == from { to } else { c };
        push_char(&mut out, d);
        proof {
            assert(replace_char_spec(s@.take(i as int + 1), from, to) =~= replace_char_spec(
                s@.take(i as int),
                from,
                to,
            ).push(d));
        }
        i = i + 1;
    }
    proof {
        assert(s@.take(n as int) =~= s@);
    }
    out
}

/// The batch shim's text before and after the target.
pub open spec fn cmd_shim_head() -> Seq<char> {
    "@ECHO off\r\nSETLOCAL\r\nSET \"basedir=%~dp0\"\r\nIF EXIST \"%basedir%\\node.exe\" (\r\nSET \"_prog=%basedir%\\node.exe\"\r\n) ELSE (\r\nSET \"_prog=node\"\r\n)\r\n\"%_prog%\" \""@
}

pub open spec fn cmd_shim_tail() -> Seq<char> {
    "\" %*\r\n"@
}

/// The PowerShell shim's text around its two mentions of the target.
pub open spec fn ps1_shim_head() -> Seq<char> {
    "$basedir = Split-Path $MyInvocation.MyCommand.Definition -Parent\n$exe = Join-Path $basedir 'node.exe'\nif (Test-Path $exe) {\n& $exe '"@
}

pub open spec fn ps1_shim_middle() -> Seq<char> {
    "' @args\n} else {\n& node '"@
}

pub open spec fn ps1_shim_tail() -> Seq<char> {
    "' @args\n}\n"@
}

/// The `.cmd` shim of a binary at `absolute_bin`: runs it with the `node`
/// beside the shim, or the one on the path, the target written with `\`.
pub open spec fn cmd_shim_spec(absolute_bin: Seq<char>) -> Seq<char> {
    cmd_shim_head() + replace_char_spec(absolute_bin, '/', '\\') + cmd_shim_tail()
}

/// The `.ps1` shim of a binary at `absolute_bin`, the target written with `/`.
pub open spec fn ps1_shim_spec(absolute_bin: Seq<char>) -> Seq<char> {
    let t = replace_char_spec(replace_char_spec(absolute_bin, '/', '\\'), '\\', '/');
    ps1_shim_head() + t + ps1_shim_middle() + t + ps1_shim_tail()
}

/// The text of the `.cmd` shim.
pub fn cmd_shim_text(absolute_bin: &str) -> (r: String)
    ensures
        r@ == cmd_shim_spec(absolute_bin@),
{
    let target = replace_char(absolute_bin, '/', '\\');
    let mut s = owned("@ECHO off\r\nSETLOCAL\r\nSET \"basedir=%~dp0\"\r\nIF EXIST \"%basedir%\\node.exe\" (\r\nSET \"_prog=%basedir%\\node.exe\"\r\n) ELSE (\r\nSET \"_prog=node\"\r\n)\r\n\"%_prog%\" \"");
    s.append(target.as_str());
    s.append("\" %*\r\n");
    s
}

/// The text of the `.ps1` shim.
pub fn ps1_shim_text(absolute_bin: &str) -> (r: String)
    ensures
        r@ == ps1_shim_spec(absolute_bin@),
{
    let target = replace_char(absolute_bin, '/', '\\');
    let t = replace_char(target.as_str(), '\\', '/');
    let mut s = owned("$basedir = Split-Path $MyInvocation.MyCommand.Definition -Parent\n$exe = Join-Path $basedir 'node.exe'\nif (Test-Path $exe) {\n& $exe '");
    s.append(t.as_str());
    s.append("' @args\n} else {\n& node '");
    s.append(t.as_str());
    s.append("' @args\n}\n");
    s
}

/// The layout protocol generation that the marker records; a layout written
/// under another generation is relinked.
pub const LINK_PROTOCOL_VERSION: u32 = 2;

/// Whether a layout marker still describes the graph: same graph hash, same
/// protocol generation.
pub fn marker_is_current(marker_hash: &str, marker_protocol: u32, graph_hash: &str) -> (r: bool)
    ensures
        r == (marker_hash@ == graph_hash@ && marker_protocol == LINK_PROTOCOL_VERSION),
{
    str_eq(marker_hash, graph_hash) && marker_protocol == LINK_PROTOCOL_VERSION
}


/// The mode a binary is given when nobody may execute it yet: its mode
/// with the execute bits of owner, group and others set, without the bits
/// above `0o777`; a mode with any execute bit is left as it is.
pub open spec fn executable_mode_spec(mode: u32) -> Option<u32> {
    if mode & 0o111u32 != 0 {
        None
    } else {
        Some((mode | 0o111u32) & 0o777u32)
    }
}

/// The new mode of a binary, if it needs one.
pub fn executable_mode(mode: u32) -> (r: Option<u32>)
    ensures
        r == executable_mode_spec(mode),
{
    if mode & 0o111u32 != 0 {
        None
    } else {
        Some((mode | 0o111u32) & 0o777u32)
    }
}

} // verus!
