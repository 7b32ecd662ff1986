//! Promises on the boot script.

use vstd::prelude::*;

use crate::laws::text::has_text;
use crate::otp::musl_file;
use crate::pipeline::{boot_script, libc_lines, share_lines};

verus! {

/// Whether a text holds some texts, one behind the other.
pub open spec fn holds_in_order(s: Seq<char>, parts: Seq<Seq<char>>) -> bool
    decreases parts.len(),
{
    parts.len() == 0 || exists|a: Seq<char>, b: Seq<char>|
        s == #[trigger] (a + parts[0] + b) && holds_in_order(b, parts.drop_first())
}

proof fn lemma_next(a: Seq<char>, part: Seq<char>, b: Seq<char>, rest: Seq<Seq<char>>)
    requires
        holds_in_order(b, rest),
    ensures
        holds_in_order(a + part + b, seq![part] + rest),
{
    let parts = seq![part] + rest;
    assert(parts[0] == part);
    assert(parts.drop_first() == rest);
    let s = a + part + b;
    assert(s == a + parts[0] + b && holds_in_order(b, parts.drop_first()));
}

/// The command that starts an app: its generated entry point.
pub open spec fn start_of_app(app: Seq<char>) -> Seq<char> {
    "-eval '"@ + app + "@@main:run("@ + app + ")'"@
}

/// The end of the script: what it sets and runs, in this order.
pub open spec fn boot_parts(app: Seq<char>, erts: Seq<char>, release: Seq<char>) -> Seq<Seq<char>> {
    seq![
        "export ROOTDIR=\"$HERE/otp\"\n"@,
        "export ERL_ROOTDIR=\"$ROOTDIR\"\n"@,
        "export BINDIR=\"$ROOTDIR/"@ + erts + "/bin\"\n"@,
        "exec \"$BINDIR/erlexec\""@,
        "-boot \"$ROOTDIR/releases/"@ + release + "/start\""@,
        "-pa \"$HERE\"/app/*/ebin"@,
        "-noshell"@,
        start_of_app(app),
        "-extra \"$@\"\n"@,
    ]
}

proof fn lemma_boot_text_0()
    ensures
        "export ROOTDIR=\"$HERE/otp\"\nexport ERL_ROOTDIR=\"$ROOTDIR\"\nexport BINDIR=\"$ROOTDIR/"@
            == "export ROOTDIR=\"$HERE/otp\"\n"@ + "export ERL_ROOTDIR=\"$ROOTDIR\"\n"@
            + "export BINDIR=\"$ROOTDIR/"@,
{
    reveal_strlit(
        "export ROOTDIR=\"$HERE/otp\"\nexport ERL_ROOTDIR=\"$ROOTDIR\"\nexport BINDIR=\"$ROOTDIR/",
    );
    reveal_strlit("export ROOTDIR=\"$HERE/otp\"\n");
    reveal_strlit("export ERL_ROOTDIR=\"$ROOTDIR\"\n");
    reveal_strlit("export BINDIR=\"$ROOTDIR/");
}

proof fn lemma_boot_text_1()
    ensures
        "/bin\"\nexport EMU=beam\nexport PROGNAME=erl\nexec \"$BINDIR/erlexec\" \\\n  -boot \"$ROOTDIR/releases/"@
            == "/bin\"\n"@ + "export EMU=beam\nexport PROGNAME=erl\n"@
            + "exec \"$BINDIR/erlexec\""@ + " \\\n  "@ + "-boot \"$ROOTDIR/releases/"@,
{
    reveal_strlit(
        "/bin\"\nexport EMU=beam\nexport PROGNAME=erl\nexec \"$BINDIR/erlexec\" \\\n  -boot \"$ROOTDIR/releases/",
    );
    reveal_strlit("/bin\"\n");
    reveal_strlit("export EMU=beam\nexport PROGNAME=erl\n");
    reveal_strlit("exec \"$BINDIR/erlexec\"");
    reveal_strlit(" \\\n  ");
    reveal_strlit("-boot \"$ROOTDIR/releases/");
}

proof fn lemma_boot_text_2()
    ensures
        "/start\" \\\n  -pa \"$HERE\"/app/*/ebin \\\n  -noshell \\\n  -eval '"@ == "/start\""@
            + " \\\n  "@ + "-pa \"$HERE\"/app/*/ebin"@ + " \\\n  "@ + "-noshell"@ + " \\\n  "@
            + "-eval '"@,
{
    reveal_strlit("/start\" \\\n  -pa \"$HERE\"/app/*/ebin \\\n  -noshell \\\n  -eval '");
    reveal_strlit("/start\"");
    reveal_strlit(" \\\n  ");
    reveal_strlit("-pa \"$HERE\"/app/*/ebin");
    reveal_strlit("-noshell");
    reveal_strlit("-eval '");
}

proof fn lemma_boot_text_3()
    ensures
        ")' \\\n  -extra \"$@\"\n"@ == ")'"@ + " \\\n  "@ + "-extra \"$@\"\n"@,
{
    reveal_strlit(")' \\\n  -extra \"$@\"\n");
    reveal_strlit(")'");
    reveal_strlit(" \\\n  ");
    reveal_strlit("-extra \"$@\"\n");
}

proof fn lemma_share_text_0()
    ensures
        share_lines() == "share() {\n  "@
            + "DIR=\"${HOME:-/tmp}/.cache/panini/$1/$(cat \"$HERE/$1.tag\")\"\n"@ + "  "@
            + "if [ ! -d \"$DIR\" ]; then\n"@ + "    mkdir -p \"$DIR.$$\"\n    "@
            + "tar -xf \"$HERE/$1.tar\" -C \"$DIR.$$\"\n"@ + "    "@ + "mv \"$DIR.$$\" \"$DIR\""@
            + " || rm -rf \"$DIR.$$\"\n  fi\n  "@ + "ln -sfn \"$DIR/$2\" \"$HERE/$2\"\n"@
            + "}\n"@ + "share rt otp\n"@ + "share apps app\n"@,
{
    reveal_strlit(
        "share() {\n  DIR=\"${HOME:-/tmp}/.cache/panini/$1/$(cat \"$HERE/$1.tag\")\"\n  if [ ! -d \"$DIR\" ]; then\n    mkdir -p \"$DIR.$$\"\n    tar -xf \"$HERE/$1.tar\" -C \"$DIR.$$\"\n    mv \"$DIR.$$\" \"$DIR\" || rm -rf \"$DIR.$$\"\n  fi\n  ln -sfn \"$DIR/$2\" \"$HERE/$2\"\n}\nshare rt otp\nshare apps app\n",
    );
    reveal_strlit("DIR=\"${HOME:-/tmp}/.cache/panini/$1/$(cat \"$HERE/$1.tag\")\"\n");
    reveal_strlit("if [ ! -d \"$DIR\" ]; then\n");
    reveal_strlit("tar -xf \"$HERE/$1.tar\" -C \"$DIR.$$\"\n");
    reveal_strlit("mv \"$DIR.$$\" \"$DIR\"");
    reveal_strlit("ln -sfn \"$DIR/$2\" \"$HERE/$2\"\n");
    reveal_strlit("share rt otp\n");
    reveal_strlit("share apps app\n");
    reveal_strlit("share() {\n  ");
    reveal_strlit("  ");
    reveal_strlit("    mkdir -p \"$DIR.$$\"\n    ");
    reveal_strlit("    ");
    reveal_strlit(" || rm -rf \"$DIR.$$\"\n  fi\n  ");
    reveal_strlit("}\n");
}

proof fn lemma_libc_text_0()
    ensures
        "LIBC=\"/tmp/libc-musl-"@ == "LIBC=\"/tmp/"@ + "libc-musl-"@,
{
    reveal_strlit("LIBC=\"/tmp/libc-musl-");
    reveal_strlit("LIBC=\"/tmp/");
    reveal_strlit("libc-musl-");
}

proof fn lemma_libc_text_1()
    ensures
        "cp \"$HERE/libc-musl-"@ == "cp \"$HERE/"@ + "libc-musl-"@,
{
    reveal_strlit("cp \"$HERE/libc-musl-");
    reveal_strlit("cp \"$HERE/");
    reveal_strlit("libc-musl-");
}

proof fn lemma_libc_text_2()
    ensures
        ".so\"\n"@ == ".so"@ + "\"\n"@,
        ".so\" \"$LIBC.$$\"\n"@ == ".so"@ + "\" \"$LIBC.$$\"\n"@,
{
    reveal_strlit(".so\"\n");
    reveal_strlit(".so");
    reveal_strlit("\"\n");
    reveal_strlit(".so\" \"$LIBC.$$\"\n");
    reveal_strlit("\" \"$LIBC.$$\"\n");
}

proof fn lemma_libc_text_3()
    ensures
        "\"\nif [ ! -e \"$LIBC\" ]; then\n  cp \"$HERE/"@ == "\"\n"@
            + "if [ ! -e \"$LIBC\" ]; then\n"@ + "  "@ + "cp \"$HERE/"@,
{
    reveal_strlit("\"\nif [ ! -e \"$LIBC\" ]; then\n  cp \"$HERE/");
    reveal_strlit("\"\n");
    reveal_strlit("if [ ! -e \"$LIBC\" ]; then\n");
    reveal_strlit("  ");
    reveal_strlit("cp \"$HERE/");
}

proof fn lemma_libc_text_4()
    ensures
        "\" \"$LIBC.$$\"\n  chmod 755 \"$LIBC.$$\"\n  mv \"$LIBC.$$\" \"$LIBC\"\nfi\n"@
            == "\" \"$LIBC.$$\"\n"@ + "  "@ + "chmod 755 \"$LIBC.$$\"\n"@ + "  "@
            + "mv \"$LIBC.$$\" \"$LIBC\"\n"@ + "fi\n"@,
{
    reveal_strlit(
        "\" \"$LIBC.$$\"\n  chmod 755 \"$LIBC.$$\"\n  mv \"$LIBC.$$\" \"$LIBC\"\nfi\n",
    );
    reveal_strlit("\" \"$LIBC.$$\"\n");
    reveal_strlit("  ");
    reveal_strlit("chmod 755 \"$LIBC.$$\"\n");
    reveal_strlit("mv \"$LIBC.$$\" \"$LIBC\"\n");
    reveal_strlit("fi\n");
}

proof fn lemma_top_text_0()
    ensures
        "#!/bin/sh\nset -eu\nHERE=$(CDPATH= cd \"$(dirname \"$0\")\" && pwd)\n"@
            == "#!/bin/sh\nset -eu\n"@ + "HERE=$(CDPATH= cd \"$(dirname \"$0\")\" && pwd)\n"@,
{
    reveal_strlit("#!/bin/sh\nset -eu\nHERE=$(CDPATH= cd \"$(dirname \"$0\")\" && pwd)\n");
    reveal_strlit("#!/bin/sh\nset -eu\n");
    reveal_strlit("HERE=$(CDPATH= cd \"$(dirname \"$0\")\" && pwd)\n");
}

#[verifier::rlimit(80)]
proof fn lemma_boot(app: Seq<char>, erts: Seq<char>, release: Seq<char>) -> (tail: Seq<char>)
    ensures
        holds_in_order(tail, boot_parts(app, erts, release)),
        forall|hash: Option<Seq<char>>|
            boot_script(app, erts, release, hash)
                == "#!/bin/sh\nset -eu\nHERE=$(CDPATH= cd \"$(dirname \"$0\")\" && pwd)\n"@
                + share_lines() + #[trigger] libc_lines(hash) + tail,
{
    let a = "export ROOTDIR=\"$HERE/otp\"\nexport ERL_ROOTDIR=\"$ROOTDIR\"\nexport BINDIR=\"$ROOTDIR/"@;
    let b = "/bin\"\nexport EMU=beam\nexport PROGNAME=erl\nexec \"$BINDIR/erlexec\" \\\n  -boot \"$ROOTDIR/releases/"@;
    let c = "/start\" \\\n  -pa \"$HERE\"/app/*/ebin \\\n  -noshell \\\n  -eval '"@;
    let d = ")' \\\n  -extra \"$@\"\n"@;
    let tail = a + erts + b + release + c + app + "@@main:run("@ + app + d;
    let none = Seq::<char>::empty();
    let p = boot_parts(app, erts, release);
    let (b1, b2) = ("export EMU=beam\nexport PROGNAME=erl\n"@, " \\\n  "@);
    lemma_boot_text_0();
    lemma_boot_text_1();
    lemma_boot_text_2();
    lemma_boot_text_3();
    let t8 = b2 + p[8] + none;
    let t7 = b2 + p[7] + t8;
    let t6 = b2 + p[6] + t7;
    let t5 = b2 + p[5] + t6;
    let t4 = b2 + p[4] + t5;
    let t3 = b1 + p[3] + t4;
    let t2 = none + p[2] + t3;
    let t1 = none + p[1] + t2;
    let t0 = none + p[0] + t1;
    assert(tail == t0);
    assert(holds_in_order(none, p.skip(9)));
    lemma_next(b2, p[8], none, p.skip(9));
    assert(seq![p[8]] + p.skip(9) == p.skip(8));
    lemma_next(b2, p[7], t8, p.skip(8));
    assert(seq![p[7]] + p.skip(8) == p.skip(7));
    lemma_next(b2, p[6], t7, p.skip(7));
    assert(seq![p[6]] + p.skip(7) == p.skip(6));
    lemma_next(b2, p[5], t6, p.skip(6));
    assert(seq![p[5]] + p.skip(6) == p.skip(5));
    lemma_next(b2, p[4], t5, p.skip(5));
    assert(seq![p[4]] + p.skip(5) == p.skip(4));
    lemma_next(b1, p[3], t4, p.skip(4));
    assert(seq![p[3]] + p.skip(4) == p.skip(3));
    lemma_next(none, p[2], t3, p.skip(3));
    assert(seq![p[2]] + p.skip(3) == p.skip(2));
    lemma_next(none, p[1], t2, p.skip(2));
    assert(seq![p[1]] + p.skip(2) == p.skip(1));
    lemma_next(none, p[0], t1, p.skip(1));
    assert(seq![p[0]] + p.skip(1) == p);
    assert forall|hash: Option<Seq<char>>| boot_script(app, erts, release, hash)
        == "#!/bin/sh\nset -eu\nHERE=$(CDPATH= cd \"$(dirname \"$0\")\" && pwd)\n"@ + share_lines()
        + #[trigger] libc_lines(hash) + tail by {
        assert(boot_script(app, erts, release, hash)
            == "#!/bin/sh\nset -eu\nHERE=$(CDPATH= cd \"$(dirname \"$0\")\" && pwd)\n"@
            + share_lines() + libc_lines(hash) + tail);
    }
    tail
}

/// The boot script sets where the runtime is, then runs the emulator of `erts`
/// with the boot files of `release`, the code of the app, and the app's own entry
/// point, and hands its arguments on.
pub proof fn script_boots_the_app(
    app: Seq<char>,
    erts: Seq<char>,
    release: Seq<char>,
    hash: Option<Seq<char>>,
)
    ensures
        holds_in_order(
            boot_script(app, erts, release, hash),
            seq!["#!/bin/sh\nset -eu\n"@] + boot_parts(app, erts, release),
        ),
        has_text(boot_script(app, erts, release, hash), start_of_app(app)),
        has_text(
            boot_script(app, erts, release, hash),
            "export BINDIR=\"$ROOTDIR/"@ + erts + "/bin\"\n"@,
        ),
        has_text(
            boot_script(app, erts, release, hash),
            "-boot \"$ROOTDIR/releases/"@ + release + "/start\""@,
        ),
{
    let top = "#!/bin/sh\nset -eu\nHERE=$(CDPATH= cd \"$(dirname \"$0\")\" && pwd)\n"@;
    let first = "#!/bin/sh\nset -eu\n"@;
    let here = "HERE=$(CDPATH= cd \"$(dirname \"$0\")\" && pwd)\n"@;
    lemma_top_text_0();
    let tail = lemma_boot(app, erts, release);
    let parts = boot_parts(app, erts, release);
    let front = here + share_lines() + libc_lines(hash);
    let none = Seq::<char>::empty();
    let s = boot_script(app, erts, release, hash);
    let (x, y) = choose|x: Seq<char>, y: Seq<char>|
        tail == #[trigger] (x + parts[0] + y) && holds_in_order(y, parts.drop_first());
    let rest = front + x;
    assert(front + tail == rest + parts[0] + y);
    lemma_next(rest, parts[0], y, parts.drop_first());
    assert(seq![parts[0]] + parts.drop_first() == parts);
    lemma_next(none, first, front + tail, parts);
    assert(s == top + share_lines() + libc_lines(hash) + tail);
    assert(s == none + first + (front + tail));
    let all = seq![first] + parts;
    lemma_holds_part(s, all, 8);
    lemma_holds_part(s, all, 3);
    lemma_holds_part(s, all, 5);
    assert(all[8] == parts[7] && all[3] == parts[2] && all[5] == parts[4]);
}

proof fn lemma_holds_part(s: Seq<char>, parts: Seq<Seq<char>>, i: int)
    requires
        holds_in_order(s, parts),
        0 <= i < parts.len(),
    ensures
        has_text(s, parts[i]),
    decreases i,
{
    let (a, b) = choose|a: Seq<char>, b: Seq<char>|
        s == #[trigger] (a + parts[0] + b) && holds_in_order(b, parts.drop_first());
    if i > 0 {
        lemma_holds_part(b, parts.drop_first(), i - 1);
        let t = parts[i];
        assert(parts.drop_first()[i - 1] == t);
        let (x, y) = choose|x: Seq<char>, y: Seq<char>| b == #[trigger] (x + t + y);
        let front = a + parts[0] + x;
        assert(s == front + t + y);
    }
}

/// The scripts of apps with different names differ.
pub proof fn scripts_tell_apps_apart(
    a: Seq<char>,
    b: Seq<char>,
    erts: Seq<char>,
    release: Seq<char>,
    hash: Option<Seq<char>>,
)
    requires
        boot_script(a, erts, release, hash) == boot_script(b, erts, release, hash),
    ensures
        a == b,
{
    let (s, t) = (boot_script(a, erts, release, hash), boot_script(b, erts, release, hash));
    let mid = "@@main:run("@;
    let end = ")' \\\n  -extra \"$@\"\n"@;
    let n = s.len() - 2 * a.len() - mid.len() - end.len();
    let front = s.take(n);
    assert(s == front + a + mid + a + end);
    assert(t.len() == n + 2 * b.len() + mid.len() + end.len());
    assert(a.len() == b.len());
    assert(t == t.take(n) + b + mid + b + end);
    assert(s.subrange(n, n + a.len()) == a);
    assert(t.subrange(n, n + b.len()) == b);
}

/// On the first run what is packed beside the script is unpacked into a directory
/// of the cache that is named by its tag, for the runtime and for the app, and
/// only where that directory is not there yet; both are then linked to where the
/// script looks for them. All that comes before anything is run.
#[verifier::rlimit(80)]
pub proof fn script_shares_what_is_packed(
    app: Seq<char>,
    erts: Seq<char>,
    release: Seq<char>,
    hash: Option<Seq<char>>,
)
    ensures
        holds_in_order(
            boot_script(app, erts, release, hash),
            seq![
                "DIR=\"${HOME:-/tmp}/.cache/panini/$1/$(cat \"$HERE/$1.tag\")\"\n"@,
                "if [ ! -d \"$DIR\" ]; then\n"@,
                "tar -xf \"$HERE/$1.tar\" -C \"$DIR.$$\"\n"@,
                "mv \"$DIR.$$\" \"$DIR\""@,
                "ln -sfn \"$DIR/$2\" \"$HERE/$2\"\n"@,
                "share rt otp\n"@,
                "share apps app\n"@,
            ] + boot_parts(app, erts, release),
        ),
{
    let top = "#!/bin/sh\nset -eu\nHERE=$(CDPATH= cd \"$(dirname \"$0\")\" && pwd)\n"@;
    let tail = lemma_boot(app, erts, release);
    let parts = boot_parts(app, erts, release);
    let p = seq![
        "DIR=\"${HOME:-/tmp}/.cache/panini/$1/$(cat \"$HERE/$1.tag\")\"\n"@,
        "if [ ! -d \"$DIR\" ]; then\n"@,
        "tar -xf \"$HERE/$1.tar\" -C \"$DIR.$$\"\n"@,
        "mv \"$DIR.$$\" \"$DIR\""@,
        "ln -sfn \"$DIR/$2\" \"$HERE/$2\"\n"@,
        "share rt otp\n"@,
        "share apps app\n"@,
    ];
    let all = p + parts;
    let g0 = "share() {\n  "@;
    let g1 = "  "@;
    let g2 = "    mkdir -p \"$DIR.$$\"\n    "@;
    let g3 = "    "@;
    let g4 = " || rm -rf \"$DIR.$$\"\n  fi\n  "@;
    let g5 = "}\n"@;
    lemma_share_text_0();
    let none = Seq::<char>::empty();
    let libc = libc_lines(hash);
    let (x, y) = choose|x: Seq<char>, y: Seq<char>|
        tail == #[trigger] (x + parts[0] + y) && holds_in_order(y, parts.drop_first());
    let lx = libc + x;
    assert(libc + tail == lx + parts[0] + y);
    lemma_next(lx, parts[0], y, parts.drop_first());
    assert(seq![parts[0]] + parts.drop_first() == parts);
    let t6 = none + p[6] + (libc + tail);
    let t5 = g5 + p[5] + t6;
    let t4 = g4 + p[4] + t5;
    let t3 = g3 + p[3] + t4;
    let t2 = g2 + p[2] + t3;
    let t1 = g1 + p[1] + t2;
    let front = top + g0;
    let t0 = front + p[0] + t1;
    lemma_next(none, p[6], libc + tail, parts);
    assert(seq![p[6]] + parts == all.skip(6));
    lemma_next(g5, p[5], t6, all.skip(6));
    assert(seq![p[5]] + all.skip(6) == all.skip(5));
    lemma_next(g4, p[4], t5, all.skip(5));
    assert(seq![p[4]] + all.skip(5) == all.skip(4));
    lemma_next(g3, p[3], t4, all.skip(4));
    assert(seq![p[3]] + all.skip(4) == all.skip(3));
    lemma_next(g2, p[2], t3, all.skip(3));
    assert(seq![p[2]] + all.skip(3) == all.skip(2));
    lemma_next(g1, p[1], t2, all.skip(2));
    assert(seq![p[1]] + all.skip(2) == all.skip(1));
    lemma_next(front, p[0], t1, all.skip(1));
    assert(seq![p[0]] + all.skip(1) == all);
    let s = boot_script(app, erts, release, hash);
    assert(s == top + share_lines() + libc + tail);
    assert(s == t0);
}

/// Where the runtime needs a musl libc, the script puts the one beside it where
/// the runtime looks for it, unless it is there, before anything is run; where
/// the runtime needs none, nothing of it is in the script.
#[verifier::rlimit(80)]
pub proof fn script_places_the_libc(
    app: Seq<char>,
    erts: Seq<char>,
    release: Seq<char>,
    hash: Seq<char>,
)
    ensures
        holds_in_order(
            boot_script(app, erts, release, Some(hash)),
            seq![
                "LIBC=\"/tmp/libc-musl-"@ + hash + ".so\"\n"@,
                "if [ ! -e \"$LIBC\" ]; then\n"@,
                "cp \"$HERE/libc-musl-"@ + hash + ".so\" \"$LIBC.$$\"\n"@,
                "chmod 755 \"$LIBC.$$\"\n"@,
                "mv \"$LIBC.$$\" \"$LIBC\"\n"@,
            ] + boot_parts(app, erts, release),
        ),
        libc_lines(None) == Seq::<char>::empty(),
{
    let top = "#!/bin/sh\nset -eu\nHERE=$(CDPATH= cd \"$(dirname \"$0\")\" && pwd)\n"@;
    let tail = lemma_boot(app, erts, release);
    let parts = boot_parts(app, erts, release);
    let p = seq![
        "LIBC=\"/tmp/libc-musl-"@ + hash + ".so\"\n"@,
        "if [ ! -e \"$LIBC\" ]; then\n"@,
        "cp \"$HERE/libc-musl-"@ + hash + ".so\" \"$LIBC.$$\"\n"@,
        "chmod 755 \"$LIBC.$$\"\n"@,
        "mv \"$LIBC.$$\" \"$LIBC\"\n"@,
    ];
    let all = p + parts;
    let none = Seq::<char>::empty();
    let g = "  "@;
    let fi = "fi\n"@;
    let libc = libc_lines(Some(hash));
    lemma_libc_text_0();
    lemma_libc_text_1();
    lemma_libc_text_2();
    lemma_libc_text_3();
    lemma_libc_text_4();
    assert(musl_file(hash) == "libc-musl-"@ + hash + ".so"@);
    assert(libc == p[0] + p[1] + g + p[2] + g + p[3] + g + p[4] + fi);
    let (x, y) = choose|x: Seq<char>, y: Seq<char>|
        tail == #[trigger] (x + parts[0] + y) && holds_in_order(y, parts.drop_first());
    let fx = fi + x;
    assert(fi + tail == fx + parts[0] + y);
    lemma_next(fx, parts[0], y, parts.drop_first());
    assert(seq![parts[0]] + parts.drop_first() == parts);
    let t4 = g + p[4] + (fi + tail);
    let t3 = g + p[3] + t4;
    let t2 = g + p[2] + t3;
    let t1 = none + p[1] + t2;
    let front = top + share_lines();
    let t0 = front + p[0] + t1;
    lemma_next(g, p[4], fi + tail, parts);
    assert(seq![p[4]] + parts == all.skip(4));
    lemma_next(g, p[3], t4, all.skip(4));
    assert(seq![p[3]] + all.skip(4) == all.skip(3));
    lemma_next(g, p[2], t3, all.skip(3));
    assert(seq![p[2]] + all.skip(3) == all.skip(2));
    lemma_next(none, p[1], t2, all.skip(2));
    assert(seq![p[1]] + all.skip(2) == all.skip(1));
    lemma_next(front, p[0], t1, all.skip(1));
    assert(seq![p[0]] + all.skip(1) == all);
    let s = boot_script(app, erts, release, Some(hash));
    assert(s == top + share_lines() + libc + tail);
    assert(s == t0);
}

} // verus!
