//! Startup: the command line and the search for the config file.

use vstd::prelude::*;
use crate::text::{chars_eq_str, chars_of, push_text, string_from, string_views};

verus! {

// ---------------------------------------------------------------------------
// Command line
// ---------------------------------------------------------------------------

/// The outcome of reading the arguments from position `i` on, where `found`
/// is the position of the config path chosen so far: each `--config` or `-c`
/// takes the next argument as the path (a later one wins), anything else is
/// refused.
pub open spec fn cli_scan(args: Seq<Seq<char>>, i: nat, found: Option<nat>) -> Result<
    Option<nat>,
    Seq<char>,
>
    decreases args.len() - i,
{
    if i >= args.len() {
        Ok(found)
    } else if args[i as int] == "--config"@ || args[i as int] == "-c"@ {
        if i + 1 >= args.len() {
            Err("Missing path after --config"@)
        } else {
            cli_scan(args, i + 2, Some((i + 1) as nat))
        }
    } else {
        Err("Unsupported argument: "@ + args[i as int])
    }
}

/// A parse result by its plain values.
pub open spec fn cli_view(r: Result<Option<usize>, String>) -> Result<Option<nat>, Seq<char>> {
    match r {
        Ok(Some(i)) => Ok(Some(i as nat)),
        Ok(None) => Ok(None),
        Err(e) => Err(e@),
    }
}

/// Parse the supported startup flags. `args` are the arguments after the
/// program name; the result is the position of the selected config path, if
/// any.
pub fn parse_cli_args(args: &Vec<String>) -> (r: Result<Option<usize>, String>)
    ensures
        cli_view(r) == cli_scan(string_views(args@), 0, None),
        r matches Ok(Some(i)) ==> i < args@.len(),
{
    let ghost av = string_views(args@);
    let mut config_path: Option<usize> = None;
    let mut index: usize = 0;
    while index < args.len()
        invariant
            index <= args.len(),
            av == string_views(args@),
            config_path matches Some(k) ==> k < args@.len(),
            cli_scan(av, 0, None) == cli_scan(
                av,
                index as nat,
                match config_path {
                    Some(k) => Some(k as nat),
                    None => None,
                },
            ),
        decreases args.len() - index,
    {
        let arg = chars_of(args[index].as_str());
        assert(av[index as int] == arg@);
        if chars_eq_str(&arg, "--config") || chars_eq_str(&arg, "-c") {
            index = index + 1;
            if index >= args.len() {
                return Err(string_from("Missing path after --config"));
            }
            config_path = Some(index);
            index = index + 1;
            continue;
        }
        let mut e = string_from("Unsupported argument: ");
        push_text(&mut e, args[index].as_str());
        return Err(e);
    }
    Ok(config_path)
}

// ---------------------------------------------------------------------------
// Paths
// ---------------------------------------------------------------------------
//
// Paths are handled as the bytes of their OS strings, so that names which are
// not UTF-8 keep every byte.

/// The byte `/`.
pub open spec fn slash() -> u8 {
    47u8
}

/// The byte `.`.
pub open spec fn dot() -> u8 {
    46u8
}

/// `PathBuf::push` of a relative path on Unix: a separator goes between the
/// two unless the base is empty or already ends with one.
pub open spec fn join_path(base: Seq<u8>, rel: Seq<u8>) -> Seq<u8> {
    if base.len() == 0 || base.last() == slash() {
        base + rel
    } else {
        base + seq![slash()] + rel
    }
}

/// Join a relative path onto a base path.
fn join_path_bytes(base: &Vec<u8>, rel: &Vec<u8>) -> (r: Vec<u8>)
    ensures
        r@ == join_path(base@, rel@),
{
    let mut out: Vec<u8> = Vec::new();
    let mut i: usize = 0;
    while i < base.len()
        invariant
            i <= base.len(),
            out@ == base@.take(i as int),
        decreases base.len() - i,
    {
        out.push(base[i]);
        assert(base@.take(i + 1) =~= base@.take(i as int).push(base@[i as int]));
        i = i + 1;
    }
    assert(base@.take(base.len() as int) =~= base@);
    if base.len() > 0 && base[base.len() - 1] != 47u8 {
        out.push(47u8);
    }
    let ghost head = out@;
    let mut j: usize = 0;
    while j < rel.len()
        invariant
            j <= rel.len(),
            out@ == head + rel@.take(j as int),
        decreases rel.len() - j,
    {
        out.push(rel[j]);
        assert(head + rel@.take(j + 1) =~= (head + rel@.take(j as int)).push(rel@[j as int]));
        j = j + 1;
    }
    assert(rel@.take(rel.len() as int) =~= rel@);
    proof {
        if base@.len() == 0 || base@.last() == slash() {
            assert(out@ =~= base@ + rel@);
        } else {
            assert(out@ =~= base@ + seq![slash()] + rel@);
        }
    }
    out
}

/// Pieces of `p` from position `i`, the current piece having begun at
/// `start`, cut at every `/`.
pub open spec fn pieces_from(p: Seq<u8>, i: int, start: int) -> Seq<Seq<u8>>
    decreases p.len() - i,
{
    if i >= p.len() {
        seq![p.subrange(start, p.len() as int)]
    } else if p[i] == slash() {
        seq![p.subrange(start, i)] + pieces_from(p, i + 1, i + 1)
    } else {
        pieces_from(p, i + 1, start)
    }
}

/// The pieces of a path between its separators, empty pieces included.
pub open spec fn path_pieces(p: Seq<u8>) -> Seq<Seq<u8>> {
    pieces_from(p, 0, 0)
}

/// Cut a path at every `/`.
fn split_path(p: &Vec<u8>) -> (r: Vec<Vec<u8>>)
    ensures
        r@.map_values(|v: Vec<u8>| v@) == path_pieces(p@),
{
    let mut parts: Vec<Vec<u8>> = Vec::new();
    let mut cur: Vec<u8> = Vec::new();
    let mut i: usize = 0;
    let ghost mut start: int = 0;
    while i < p.len()
        invariant
            0 <= start <= i <= p.len(),
            cur@ == p@.subrange(start, i as int),
            parts@.map_values(|v: Vec<u8>| v@) + pieces_from(p@, i as int, start) == path_pieces(
                p@,
            ),
        decreases p.len() - i,
    {
        let c = p[i];
        if c == 47u8 {
            let ghost before = parts@.map_values(|v: Vec<u8>| v@);
            parts.push(cur);
            assert(parts@.map_values(|v: Vec<u8>| v@) =~= before.push(p@.subrange(start, i as int)));
            cur = Vec::new();
            proof {
                start = i + 1;
            }
        } else {
            cur.push(c);
            assert(cur@ =~= p@.subrange(start, i + 1));
        }
        i = i + 1;
    }
    let ghost before = parts@.map_values(|v: Vec<u8>| v@);
    parts.push(cur);
    assert(parts@.map_values(|v: Vec<u8>| v@) =~= before.push(p@.subrange(start, p@.len() as int)));
    parts
}

/// The normal parts of a path: the pieces between separators, without
/// empty pieces and without `.` pieces.
pub open spec fn normal_parts(ps: Seq<Seq<u8>>) -> Seq<Seq<u8>>
    decreases ps.len(),
{
    if ps.len() == 0 {
        seq![]
    } else {
        let rest = normal_parts(ps.drop_last());
        let p = ps.last();
        if p.len() == 0 || p == seq![dot()] {
            rest
        } else {
            rest.push(p)
        }
    }
}

/// What `Path` equality compares on Unix: whether the path is rooted,
/// whether it begins with a `.` of its own, and its normal parts.
pub open spec fn path_key(p: Seq<u8>) -> (bool, bool, Seq<Seq<u8>>) {
    let rooted = p.len() > 0 && p[0] == slash();
    let cur = !rooted && p.len() > 0 && p[0] == dot() && (p.len() == 1 || p[1] == slash());
    (rooted, cur, normal_parts(path_pieces(p)))
}

/// Two paths name the same place by their components.
pub open spec fn same_path(a: Seq<u8>, b: Seq<u8>) -> bool {
    path_key(a) == path_key(b)
}

/// Whether two byte strings are equal.
fn bytes_eq(a: &Vec<u8>, b: &Vec<u8>) -> (r: bool)
    ensures
        r == (a@ == b@),
{
    if a.len() != b.len() {
        return false;
    }
    let mut i: usize = 0;
    while i < a.len()
        invariant
            i <= a.len(),
            a.len() == b.len(),
            forall|j: int| 0 <= j < i ==> a@[j] == b@[j],
        decreases a.len() - i,
    {
        if a[i] != b[i] {
            return false;
        }
        i = i + 1;
    }
    assert(a@ =~= b@);
    true
}

/// The normal parts of a path, computed.
fn path_parts(p: &Vec<u8>) -> (r: Vec<Vec<u8>>)
    ensures
        r@.map_values(|v: Vec<u8>| v@) == normal_parts(path_pieces(p@)),
{
    let pieces = split_path(p);
    let ghost pv = pieces@.map_values(|v: Vec<u8>| v@);
    let mut out: Vec<Vec<u8>> = Vec::new();
    let mut i: usize = 0;
    assert(pv.take(0) =~= Seq::<Seq<u8>>::empty());
    while i < pieces.len()
        invariant
            i <= pieces.len(),
            pv == pieces@.map_values(|v: Vec<u8>| v@),
            pv == path_pieces(p@),
            out@.map_values(|v: Vec<u8>| v@) == normal_parts(pv.take(i as int)),
        decreases pieces.len() - i,
    {
        assert(pv.take(i + 1).drop_last() =~= pv.take(i as int));
        assert(pv.take(i + 1).last() == pieces@[i as int]@);
        let piece = &pieces[i];
        let dot_piece: Vec<u8> = vec![46u8];
        assert(dot_piece@ =~= seq![dot()]);
        if !(piece.len() == 0 || bytes_eq(piece, &dot_piece)) {
            let ghost before = out@.map_values(|v: Vec<u8>| v@);
            out.push(piece.clone());
            assert(out@.map_values(|v: Vec<u8>| v@) =~= before.push(piece@));
        }
        i = i + 1;
    }
    assert(pv.take(pieces.len() as int) =~= pv);
    out
}

/// Whether two lists of byte strings are equal.
fn parts_eq(a: &Vec<Vec<u8>>, b: &Vec<Vec<u8>>) -> (r: bool)
    ensures
        r == (a@.map_values(|v: Vec<u8>| v@) == b@.map_values(|v: Vec<u8>| v@)),
{
    if a.len() != b.len() {
        proof {
            if a@.map_values(|v: Vec<u8>| v@) == b@.map_values(|v: Vec<u8>| v@) {
                assert(a@.map_values(|v: Vec<u8>| v@).len() == b@.map_values(|v: Vec<u8>| v@).len());
            }
        }
        return false;
    }
    let mut i: usize = 0;
    while i < a.len()
        invariant
            i <= a.len(),
            a.len() == b.len(),
            forall|j: int| 0 <= j < i ==> a@[j]@ == b@[j]@,
        decreases a.len() - i,
    {
        if !bytes_eq(&a[i], &b[i]) {
            assert(a@.map_values(|v: Vec<u8>| v@)[i as int] != b@.map_values(|v: Vec<u8>| v@)[i as int]);
            return false;
        }
        i = i + 1;
    }
    assert(a@.map_values(|v: Vec<u8>| v@) =~= b@.map_values(|v: Vec<u8>| v@));
    true
}

/// The rooted and leading-`.` flags of a path.
fn path_flags(p: &Vec<u8>) -> (r: (bool, bool))
    ensures
        r.0 == path_key(p@).0,
        r.1 == path_key(p@).1,
{
    let rooted = p.len() > 0 && p[0] == 47u8;
    let cur = !rooted && p.len() > 0 && p[0] == 46u8 && (p.len() == 1 || p[1] == 47u8);
    (rooted, cur)
}

/// Compare two paths component by component, as `Path` equality does.
pub fn paths_equal(a: &Vec<u8>, b: &Vec<u8>) -> (r: bool)
    ensures
        r == same_path(a@, b@),
{
    let fa = path_flags(a);
    let fb = path_flags(b);
    if fa.0 != fb.0 || fa.1 != fb.1 {
        return false;
    }
    let pa = path_parts(a);
    let pb = path_parts(b);
    parts_eq(&pa, &pb)
}

// ---------------------------------------------------------------------------
// Config search
// ---------------------------------------------------------------------------

/// The byte views of a list of paths.
pub open spec fn path_views(v: Seq<Vec<u8>>) -> Seq<Seq<u8>> {
    v.map_values(|p: Vec<u8>| p@)
}

/// A search list with `p` added at the end unless it already names `p`.
pub open spec fn push_unique(list: Seq<Seq<u8>>, p: Seq<u8>) -> Seq<Seq<u8>> {
    if exists|i: int| 0 <= i < list.len() && same_path(#[trigger] list[i], p) {
        list
    } else {
        list.push(p)
    }
}

/// Keep duplicate search paths out of error output.
pub fn push_unique_path(config_paths: &mut Vec<Vec<u8>>, path: Vec<u8>)
    ensures
        path_views(final(config_paths)@) == push_unique(path_views(old(config_paths)@), path@),
{
    let ghost before = path_views(config_paths@);
    let mut i: usize = 0;
    while i < config_paths.len()
        invariant
            i <= config_paths.len(),
            before == path_views(config_paths@),
            forall|j: int| 0 <= j < i ==> !same_path(#[trigger] before[j], path@),
        decreases config_paths.len() - i,
    {
        if paths_equal(&config_paths[i], &path) {
            assert(same_path(before[i as int], path@));
            return;
        }
        i = i + 1;
    }
    let ghost pv = path@;
    config_paths.push(path);
    assert(path_views(config_paths@) =~= before.push(pv));
}

/// `dwm_status`, the directory of the config file under a config home.
pub open spec fn app_dir() -> Seq<u8> {
    seq![100u8, 119u8, 109u8, 95u8, 115u8, 116u8, 97u8, 116u8, 117u8, 115u8]
}

/// `config.toml`, the name of the config file.
pub open spec fn config_file() -> Seq<u8> {
    seq![99u8, 111u8, 110u8, 102u8, 105u8, 103u8, 46u8, 116u8, 111u8, 109u8, 108u8]
}

/// `.config`, the config home under a home directory.
pub open spec fn dot_config() -> Seq<u8> {
    seq![46u8, 99u8, 111u8, 110u8, 102u8, 105u8, 103u8]
}

/// The config search list in priority order: `$XDG_CONFIG_HOME`, then
/// `$HOME/.config`, then the working directory, each place named once.
pub open spec fn config_candidates(
    xdg_config_home: Option<Seq<u8>>,
    home: Option<Seq<u8>>,
    current_dir: Seq<u8>,
) -> Seq<Seq<u8>> {
    let a: Seq<Seq<u8>> = match xdg_config_home {
        Some(x) => push_unique(seq![], join_path(join_path(x, app_dir()), config_file())),
        None => seq![],
    };
    let b = match home {
        Some(h) => push_unique(
            a,
            join_path(join_path(join_path(h, dot_config()), app_dir()), config_file()),
        ),
        None => a,
    };
    push_unique(b, join_path(current_dir, config_file()))
}

/// The bytes of `dwm_status`.
fn app_dir_bytes() -> (r: Vec<u8>)
    ensures
        r@ == app_dir(),
{
    let r: Vec<u8> = vec![100u8, 119u8, 109u8, 95u8, 115u8, 116u8, 97u8, 116u8, 117u8, 115u8];
    assert(r@ =~= app_dir());
    r
}

/// The bytes of `config.toml`.
fn config_file_bytes() -> (r: Vec<u8>)
    ensures
        r@ == config_file(),
{
    let r: Vec<u8> = vec![99u8, 111u8, 110u8, 102u8, 105u8, 103u8, 46u8, 116u8, 111u8, 109u8, 108u8];
    assert(r@ =~= config_file());
    r
}

/// The bytes of `.config`.
fn dot_config_bytes() -> (r: Vec<u8>)
    ensures
        r@ == dot_config(),
{
    let r: Vec<u8> = vec![46u8, 99u8, 111u8, 110u8, 102u8, 105u8, 103u8];
    assert(r@ =~= dot_config());
    r
}

/// Expand XDG and local config candidates; paths are the bytes of their OS
/// strings.
pub fn candidate_config_paths_from(
    xdg_config_home: Option<&Vec<u8>>,
    home: Option<&Vec<u8>>,
    current_dir: &Vec<u8>,
) -> (r: Vec<Vec<u8>>)
    ensures
        path_views(r@) == config_candidates(
            match xdg_config_home {
                Some(x) => Some(x@),
                None => None,
            },
            match home {
                Some(h) => Some(h@),
                None => None,
            },
            current_dir@,
        ),
{
    let mut config_paths: Vec<Vec<u8>> = Vec::new();
    assert(path_views(config_paths@) =~= Seq::<Seq<u8>>::empty());
    let app = app_dir_bytes();
    let file = config_file_bytes();
    if let Some(x) = xdg_config_home {
        let dir = join_path_bytes(x, &app);
        push_unique_path(&mut config_paths, join_path_bytes(&dir, &file));
    }
    if let Some(h) = home {
        let dot = join_path_bytes(h, &dot_config_bytes());
        let dir = join_path_bytes(&dot, &app);
        push_unique_path(&mut config_paths, join_path_bytes(&dir, &file));
    }
    push_unique_path(&mut config_paths, join_path_bytes(current_dir, &file));
    config_paths
}

/// Adding a path keeps a list free of two entries for the same place.
proof fn lemma_push_unique_distinct(list: Seq<Seq<u8>>, p: Seq<u8>)
    requires
        forall|i: int, j: int|
            0 <= i < j < list.len() ==> !same_path(#[trigger] list[i], #[trigger] list[j]),
    ensures
        forall|i: int, j: int|
            0 <= i < j < push_unique(list, p).len() ==> !same_path(
                #[trigger] push_unique(list, p)[i],
                #[trigger] push_unique(list, p)[j],
            ),
{
    let q = push_unique(list, p);
    assert forall|i: int, j: int| 0 <= i < j < q.len() implies !same_path(
        #[trigger] q[i],
        #[trigger] q[j],
    ) by {
        if j == list.len() {
            assert(q[j] == p);
            assert(q[i] == list[i]);
        }
    }
}

/// The config search list never names one place twice.
pub proof fn law_config_candidates_distinct(
    xdg_config_home: Option<Seq<u8>>,
    home: Option<Seq<u8>>,
    current_dir: Seq<u8>,
)
    ensures
        forall|i: int, j: int|
            0 <= i < j < config_candidates(xdg_config_home, home, current_dir).len() ==> !same_path(
                #[trigger] config_candidates(xdg_config_home, home, current_dir)[i],
                #[trigger] config_candidates(xdg_config_home, home, current_dir)[j],
            ),
{
    let e: Seq<Seq<u8>> = seq![];
    let a: Seq<Seq<u8>> = match xdg_config_home {
        Some(x) => push_unique(e, join_path(join_path(x, app_dir()), config_file())),
        None => e,
    };
    if let Some(x) = xdg_config_home {
        lemma_push_unique_distinct(e, join_path(join_path(x, app_dir()), config_file()));
    }
    let b = match home {
        Some(h) => push_unique(
            a,
            join_path(join_path(join_path(h, dot_config()), app_dir()), config_file()),
        ),
        None => a,
    };
    if let Some(h) = home {
        lemma_push_unique_distinct(
            a,
            join_path(join_path(join_path(h, dot_config()), app_dir()), config_file()),
        );
    }
    lemma_push_unique_distinct(b, join_path(current_dir, config_file()));
}

/// `dir/dwm_status/config.toml`.
pub open spec fn config_in(dir: Seq<u8>) -> Seq<u8> {
    join_path(join_path(dir, app_dir()), config_file())
}

/// The search order: `$XDG_CONFIG_HOME/dwm_status/config.toml` first when
/// that variable is set; then `$HOME/.config/dwm_status/config.toml`, unless
/// it names the same place; and the working directory's `config.toml` last,
/// unless an earlier entry already names it. Nothing else is searched.
pub proof fn law_config_search_order(
    xdg_config_home: Option<Seq<u8>>,
    home: Option<Seq<u8>>,
    current_dir: Seq<u8>,
)
    ensures
        1 <= config_candidates(xdg_config_home, home, current_dir).len() <= 3,
        xdg_config_home matches Some(x) ==> config_candidates(xdg_config_home, home, current_dir)[0]
            == config_in(x),
        match (xdg_config_home, home) {
            (None, Some(h)) => config_candidates(xdg_config_home, home, current_dir)[0]
                == config_in(join_path(h, dot_config())),
            (Some(x), Some(h)) => !same_path(config_in(x), config_in(join_path(h, dot_config())))
                ==> config_candidates(xdg_config_home, home, current_dir)[1] == config_in(
                join_path(h, dot_config()),
            ),
            _ => true,
        },
        (xdg_config_home matches Some(x) ==> !same_path(
            config_in(x),
            join_path(current_dir, config_file()),
        )) && (home matches Some(h) ==> !same_path(
            config_in(join_path(h, dot_config())),
            join_path(current_dir, config_file()),
        )) ==> config_candidates(xdg_config_home, home, current_dir).last() == join_path(
            current_dir,
            config_file(),
        ),
        exists|i: int|
            0 <= i < config_candidates(xdg_config_home, home, current_dir).len() && same_path(
                #[trigger] config_candidates(xdg_config_home, home, current_dir)[i],
                join_path(current_dir, config_file()),
            ),
        forall|i: int|
            0 <= i < config_candidates(xdg_config_home, home, current_dir).len() ==> {
                let p = #[trigger] config_candidates(xdg_config_home, home, current_dir)[i];
                ||| p == join_path(current_dir, config_file())
                ||| xdg_config_home matches Some(x) && p == config_in(x)
                ||| home matches Some(h) && p == config_in(join_path(h, dot_config()))
            },
{
    let c = config_candidates(xdg_config_home, home, current_dir);
    let w = join_path(current_dir, config_file());
    let e: Seq<Seq<u8>> = seq![];
    let a: Seq<Seq<u8>> = match xdg_config_home {
        Some(x) => push_unique(e, config_in(x)),
        None => e,
    };
    let b = match home {
        Some(h) => push_unique(a, config_in(join_path(h, dot_config()))),
        None => a,
    };
    assert(c == push_unique(b, w));
    if let Some(x) = xdg_config_home {
        assert(a =~= seq![config_in(x)]);
    } else {
        assert(a =~= e);
    }
    assert(1 <= b.len() + 1);
    assert(forall|i: int|
        0 <= i < b.len() ==> b[i] == w || (xdg_config_home matches Some(x) && b[i] == config_in(x))
            || (home matches Some(h) && b[i] == config_in(join_path(h, dot_config()))));
    if exists|i: int| 0 <= i < b.len() && same_path(#[trigger] b[i], w) {
        let i = choose|i: int| 0 <= i < b.len() && same_path(#[trigger] b[i], w);
        assert(c == b);
        assert(c[i] == b[i]);
    } else {
        assert(c == b.push(w));
        assert(c[c.len() - 1] == w);
        assert(path_key(w) == path_key(w));
        assert(same_path(c[c.len() - 1], w));
    }
}

/// One `\n- path` line per searched path.
pub open spec fn searched_lines(paths: Seq<Seq<char>>) -> Seq<char>
    decreases paths.len(),
{
    if paths.len() == 0 {
        seq![]
    } else {
        searched_lines(paths.drop_last()) + "\n- "@ + paths.last()
    }
}

/// The error for a search that found nothing.
pub open spec fn missing_config_text(paths: Seq<Seq<char>>) -> Seq<char> {
    "Failed to find config.toml. Searched:"@ + searched_lines(paths)
        + "\nUse --config /path/to/config.toml to select a file explicitly."@
}

/// Format the missing-config error with the real search order.
pub fn missing_config_error(config_paths: &Vec<String>) -> (r: String)
    ensures
        r@ == missing_config_text(string_views(config_paths@)),
{
    let ghost pv = string_views(config_paths@);
    let mut message = string_from("Failed to find config.toml. Searched:");
    let mut i: usize = 0;
    assert(pv.take(0) =~= Seq::<Seq<char>>::empty());
    while i < config_paths.len()
        invariant
            i <= config_paths.len(),
            pv == string_views(config_paths@),
            message@ == "Failed to find config.toml. Searched:"@ + searched_lines(pv.take(i as int)),
        decreases config_paths.len() - i,
    {
        assert(pv.take(i + 1).drop_last() =~= pv.take(i as int));
        assert(pv.take(i + 1).last() == config_paths@[i as int]@);
        push_text(&mut message, "\n- ");
        push_text(&mut message, config_paths[i].as_str());
        i = i + 1;
    }
    assert(pv.take(config_paths.len() as int) =~= pv);
    push_text(&mut message, "\nUse --config /path/to/config.toml to select a file explicitly.");
    message
}

/// Pick the first config file that exists: `config_paths[i]` is how the
/// `i`-th candidate is shown and `is_file[i]` tells whether it names a
/// regular file. The result is that position, or the error listing every
/// searched path when none exists.
pub fn resolve_config_path(config_paths: &Vec<String>, is_file: &Vec<bool>) -> (r: Result<
    usize,
    String,
>)
    requires
        is_file@.len() == config_paths@.len(),
    ensures
        match r {
            Ok(i) => i < is_file@.len() && is_file@[i as int] && forall|j: int|
                0 <= j < i ==> !#[trigger] is_file@[j],
            Err(e) => (forall|j: int| 0 <= j < is_file@.len() ==> !#[trigger] is_file@[j]) && e@
                == missing_config_text(string_views(config_paths@)),
        },
{
    let mut i: usize = 0;
    while i < is_file.len()
        invariant
            i <= is_file.len(),
            forall|j: int| 0 <= j < i ==> !#[trigger] is_file@[j],
        decreases is_file.len() - i,
    {
        if is_file[i] {
            return Ok(i);
        }
        i = i + 1;
    }
    Err(missing_config_error(config_paths))
}

} // verus!
