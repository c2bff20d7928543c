//! The command lines by which the tool service runs the command-line
//! program, and the report of a run.

use crate::names::{names_of, opt_name, Name};
use crate::text::{
    has_char, signed_decimal, signed_decimal_text, trim, trim_end, trimmed, trimmed_end,
};
use vstd::prelude::*;
use vstd::string::*;

verus! {

/// What every tool takes: where to run, and which project to work on.
#[derive(Clone, Debug, PartialEq, Eq)]
pub struct CommonOpts {
    /// The working directory of the run.
    pub cwd: Option<String>,
    /// The root of the project, where it is not to be discovered.
    pub project: Option<String>,
}

impl Default for CommonOpts {
    fn default() -> (r: Self)
        ensures
            r.cwd is None,
            r.project is None,
    {
        CommonOpts { cwd: None, project: None }
    }
}

/// The option `name` with the value `value`, where there is one.
pub open spec fn option_args(name: Seq<char>, value: Option<Name>) -> Seq<Seq<char>> {
    match value {
        Some(v) => seq![name, v],
        None => Seq::empty(),
    }
}

/// The switch `name`, where it is on.
pub open spec fn switch_args(name: Seq<char>, on: bool) -> Seq<Seq<char>> {
    if on {
        seq![name]
    } else {
        Seq::empty()
    }
}

/// The option `-p` for each of the products.
pub open spec fn product_args(products: Seq<Name>) -> Seq<Seq<char>>
    decreases products.len(),
{
    if products.len() == 0 {
        Seq::empty()
    } else {
        product_args(products.drop_last()) + seq!["-p"@, products.last()]
    }
}

/// The arguments that every command line begins with.
pub open spec fn base_args(common: CommonOpts) -> Seq<Seq<char>> {
    option_args("--project"@, opt_name(common.project))
}

/// Adds the argument `text`.
fn push_text(args: &mut Vec<String>, text: &str)
    ensures
        names_of(final(args)@) == names_of(old(args)@).push(text@),
{
    let ghost before = names_of(args@);
    args.push(String::from_str(text));
    assert(names_of(args@) =~= before.push(text@));
}

/// Adds the option `name` with its value, where there is one.
fn push_option(args: &mut Vec<String>, name: &str, value: &Option<String>)
    ensures
        names_of(final(args)@) == names_of(old(args)@) + option_args(name@, opt_name(*value)),
{
    let ghost before = names_of(args@);
    match value {
        Some(v) => {
            push_text(args, name);
            push_text(args, v.as_str());
            assert(names_of(args@) =~= before + option_args(name@, opt_name(*value)));
        },
        None => {
            assert(names_of(args@) =~= before + option_args(name@, opt_name(*value)));
        },
    }
}

/// Adds the switch `name`, where it is on.
fn push_switch(args: &mut Vec<String>, name: &str, on: bool)
    ensures
        names_of(final(args)@) == names_of(old(args)@) + switch_args(name@, on),
{
    let ghost before = names_of(args@);
    if on {
        push_text(args, name);
    }
    assert(names_of(args@) =~= before + switch_args(name@, on));
}

/// The arguments that every command line begins with.
pub fn scd_base_args(common: &CommonOpts) -> (r: Vec<String>)
    ensures
        names_of(r@) == base_args(*common),
{
    let mut args: Vec<String> = Vec::new();
    assert(names_of(args@) =~= Seq::<Seq<char>>::empty());
    push_option(&mut args, "--project", &common.project);
    assert(names_of(args@) =~= base_args(*common));
    args
}

/// Adds the option `-p` for each of the products.
pub fn add_products(args: &mut Vec<String>, products: &Vec<String>)
    ensures
        names_of(final(args)@) == names_of(old(args)@) + product_args(names_of(products@)),
{
    let ghost before = names_of(args@);
    let ghost all = names_of(products@);
    let mut i: usize = 0;
    assert(all.take(0) =~= Seq::<Seq<char>>::empty());
    assert(names_of(args@) =~= before + product_args(all.take(0)));
    while i < products.len()
        invariant
            all == names_of(products@),
            i <= products@.len(),
            names_of(args@) == before + product_args(all.take(i as int)),
        decreases products@.len() - i,
    {
        proof {
            assert(all.take(i + 1).drop_last() =~= all.take(i as int));
            assert(all.take(i + 1).last() == products@[i as int]@);
        }
        let ghost mid = names_of(args@);
        push_text(args, "-p");
        push_text(args, products[i].as_str());
        proof {
            assert(names_of(args@) =~= before + product_args(all.take(i + 1)));
        }
        i += 1;
    }
    proof {
        assert(all.take(products@.len() as int) =~= all);
    }
}

/// The command line that initialises a project.
pub fn init_args(common: &CommonOpts, name: &str, sample: bool, interactive: bool) -> (r: Vec<
    String,
>)
    ensures
        names_of(r@) == base_args(*common) + seq!["init"@, "--name"@, name@] + switch_args(
            "--sample"@,
            sample,
        ) + switch_args("--interactive"@, interactive),
{
    let mut args = scd_base_args(common);
    push_text(&mut args, "init");
    push_text(&mut args, "--name");
    push_text(&mut args, name);
    assert(names_of(args@) =~= base_args(*common) + seq!["init"@, "--name"@, name@]);
    push_switch(&mut args, "--sample", sample);
    push_switch(&mut args, "--interactive", interactive);
    args
}

/// The command line that shows the status of the project.
pub fn project_status_args(common: &CommonOpts) -> (r: Vec<String>)
    ensures
        names_of(r@) == base_args(*common) + seq!["project-status"@],
{
    let mut args = scd_base_args(common);
    push_text(&mut args, "project-status");
    assert(names_of(args@) =~= base_args(*common) + seq!["project-status"@]);
    args
}

/// The command line that connects an environment.
pub fn connect_args(
    common: &CommonOpts,
    environment: &str,
    aws_profile: &Option<String>,
    region: &Option<String>,
    account_id: &Option<String>,
    sso_login: bool,
) -> (r: Vec<String>)
    ensures
        names_of(r@) == base_args(*common) + seq!["connect"@, "-e"@, environment@] + option_args(
            "--aws-profile"@,
            opt_name(*aws_profile),
        ) + option_args("--region"@, opt_name(*region)) + option_args(
            "--account-id"@,
            opt_name(*account_id),
        ) + switch_args("--sso-login"@, sso_login),
{
    let mut args = scd_base_args(common);
    push_text(&mut args, "connect");
    push_text(&mut args, "-e");
    push_text(&mut args, environment);
    assert(names_of(args@) =~= base_args(*common) + seq!["connect"@, "-e"@, environment@]);
    push_option(&mut args, "--aws-profile", aws_profile);
    push_option(&mut args, "--region", region);
    push_option(&mut args, "--account-id", account_id);
    push_switch(&mut args, "--sso-login", sso_login);
    args
}

/// The command line that reconciles the bootstrap resources.
pub fn sync_args(common: &CommonOpts, environment: &str, dry_run: bool) -> (r: Vec<String>)
    ensures
        names_of(r@) == base_args(*common) + seq!["sync"@, "-e"@, environment@] + switch_args(
            "--dry-run"@,
            dry_run,
        ),
{
    let mut args = scd_base_args(common);
    push_text(&mut args, "sync");
    push_text(&mut args, "-e");
    push_text(&mut args, environment);
    assert(names_of(args@) =~= base_args(*common) + seq!["sync"@, "-e"@, environment@]);
    push_switch(&mut args, "--dry-run", dry_run);
    args
}

/// The command line that tears an environment down.
pub fn destroy_args(common: &CommonOpts, environment: &str, dry_run: bool, force: bool) -> (r: Vec<
    String,
>)
    ensures
        names_of(r@) == base_args(*common) + seq!["destroy"@, "-e"@, environment@] + switch_args(
            "--dry-run"@,
            dry_run,
        ) + switch_args("--force"@, force),
{
    let mut args = scd_base_args(common);
    push_text(&mut args, "destroy");
    push_text(&mut args, "-e");
    push_text(&mut args, environment);
    assert(names_of(args@) =~= base_args(*common) + seq!["destroy"@, "-e"@, environment@]);
    push_switch(&mut args, "--dry-run", dry_run);
    push_switch(&mut args, "--force", force);
    args
}

/// The command line of the deploy command `command` for an environment:
/// the products it names, and the switches that are on.
pub fn deploy_args(
    common: &CommonOpts,
    command: &str,
    environment: &str,
    products: &Vec<String>,
    dry_run: bool,
    force: bool,
) -> (r: Vec<String>)
    ensures
        names_of(r@) == base_args(*common) + seq!["deploy"@, command@, "-e"@, environment@]
            + product_args(names_of(products@)) + switch_args("--dry-run"@, dry_run) + switch_args(
            "--force"@,
            force,
        ),
{
    let mut args = scd_base_args(common);
    push_text(&mut args, "deploy");
    push_text(&mut args, command);
    push_text(&mut args, "-e");
    push_text(&mut args, environment);
    assert(names_of(args@) =~= base_args(*common) + seq![
        "deploy"@,
        command@,
        "-e"@,
        environment@,
    ]);
    add_products(&mut args, products);
    push_switch(&mut args, "--dry-run", dry_run);
    push_switch(&mut args, "--force", force);
    args
}

/// An argument as the report shows it: in quotes where it holds a space.
pub open spec fn shown(arg: Seq<char>) -> Seq<char> {
    if arg.contains(' ') {
        "\""@ + arg + "\""@
    } else {
        arg
    }
}

/// The arguments as the report shows them, a space before each.
pub open spec fn shown_args(args: Seq<Seq<char>>) -> Seq<char>
    decreases args.len(),
{
    if args.len() == 0 {
        Seq::empty()
    } else {
        shown_args(args.drop_last()) + " "@ + shown(args.last())
    }
}

/// The part of the report that shows what the run has written to the
/// stream `title`; nothing where that is blank.
pub open spec fn stream_part(title: Seq<char>, written: Seq<char>) -> Seq<char> {
    if trimmed(written).len() == 0 {
        Seq::empty()
    } else {
        "\n"@ + title + ":\n"@ + trimmed_end(written) + "\n"@
    }
}

/// The report of a run: the command line, the exit code and what the run
/// has written.
pub open spec fn report(args: Seq<Seq<char>>, code: int, stdout: Seq<char>, stderr: Seq<char>) -> Seq<
    char,
> {
    "command: scd"@ + shown_args(args) + "\n"@ + "exit_code: "@ + signed_decimal(code) + "\n"@
        + stream_part("stdout"@, stdout) + stream_part("stderr"@, stderr)
}

/// The part of the report that shows what the run has written to one
/// stream.
fn stream_text(title: &str, written: &str) -> (r: String)
    ensures
        r@ == stream_part(title@, written@),
{
    if trim(written).unicode_len() == 0 {
        String::new()
    } else {
        String::from_str("\n").concat(title).concat(":\n").concat(trim_end(written)).concat("\n")
    }
}

/// The report of a run of the program with the arguments `args`.
pub fn report_text(args: &Vec<String>, code: i32, stdout: &str, stderr: &str) -> (r: String)
    ensures
        r@ == report(names_of(args@), code as int, stdout@, stderr@),
{
    let ghost all = names_of(args@);
    let mut line = String::new();
    let mut i: usize = 0;
    assert(all.take(0) =~= Seq::<Seq<char>>::empty());
    while i < args.len()
        invariant
            all == names_of(args@),
            i <= args@.len(),
            line@ == shown_args(all.take(i as int)),
        decreases args@.len() - i,
    {
        proof {
            assert(all.take(i + 1).drop_last() =~= all.take(i as int));
            assert(all.take(i + 1).last() == args@[i as int]@);
        }
        let a = args[i].as_str();
        if has_char(a, ' ') {
            line = line.concat(" ").concat(
                String::from_str("\"").concat(a).concat("\"").as_str(),
            );
        } else {
            line = line.concat(" ").concat(a);
        }
        i += 1;
    }
    proof {
        assert(all.take(args@.len() as int) =~= all);
    }
    String::from_str("command: scd").concat(line.as_str()).concat("\n").concat(
        "exit_code: ",
    ).concat(signed_decimal_text(code).as_str()).concat("\n").concat(
        stream_text("stdout", stdout).as_str(),
    ).concat(stream_text("stderr", stderr).as_str())
}

} // verus!
