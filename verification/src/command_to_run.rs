//! The description of a process to launch.

use crate::text::{
    copy_option, copy_strings, has_char, join, join_strings, lemma_replace_absent,
    lemma_replace_anywhere, lemma_texts_push, occurs, opt_text, replace, replace_all, texts,
    unbordered,
};
use crate::tokenizer::{
    lemma_filled_one, lemma_unquoted_splits_at_blanks, lemma_words_within, tokenize, tokens, words,
};
use crate::user_command::WriterWithTCP;
use crate::utilities::{build_invalid_data_error_str, Error, ErrorKind};
use vstd::prelude::*;

verus! {

/// What the process knows of its surroundings when a path is expanded.
#[derive(Debug)]
pub struct Environment {
    /// The current working directory, where it can be read.
    pub current_dir: Option<String>,
    /// The home directory of the user, where one is set.
    pub home: Option<String>,
}

/// The message where the current directory cannot be read.
pub open spec fn no_current_dir() -> Seq<char> {
    "current directory cannot be read"@
}

/// The message where `~` stands in a path and no home directory is set.
pub open spec fn no_home() -> Seq<char> {
    "home directory is not set"@
}

/// The message where a command has no program.
pub open spec fn no_command() -> Seq<char> {
    "command is empty"@
}

/// A path with its tokens replaced, or the message of the failure.
///
/// First every `$PWD` becomes the current directory, then every `~` the home
/// directory, then, where a working directory is given, every `$WD` that
/// directory. Each step works on the whole text that the step before left.
pub open spec fn expanded(path: Seq<char>, work_dir: Option<Seq<char>>, env: Environment) -> Result<
    Seq<char>,
    Seq<char>,
> {
    match env.current_dir {
        None => Err(no_current_dir()),
        Some(cwd) => {
            let a = replace_all(path, "$PWD"@, cwd@);
            match env.home {
                None => if a.contains('~') {
                    Err(no_home())
                } else {
                    Ok(with_work_dir(a, work_dir))
                },
                Some(home) => Ok(with_work_dir(replace_all(a, "~"@, home@), work_dir)),
            }
        },
    }
}

/// A path with every `$WD` replaced, where a working directory is given.
pub open spec fn with_work_dir(path: Seq<char>, work_dir: Option<Seq<char>>) -> Seq<char> {
    match work_dir {
        Some(wd) => replace_all(path, "$WD"@, wd),
        None => path,
    }
}

/// An optional path expanded, or the message of the failure.
pub open spec fn expanded_opt(
    path: Option<Seq<char>>,
    work_dir: Option<Seq<char>>,
    env: Environment,
) -> Result<Option<Seq<char>>, Seq<char>> {
    match path {
        None => Ok(None),
        Some(p) => match expanded(p, work_dir, env) {
            Ok(e) => Ok(Some(e)),
            Err(m) => Err(m),
        },
    }
}

/// Each of the paths expanded, or the message of the first failure.
pub open spec fn expanded_all(paths: Seq<Seq<char>>, work_dir: Option<Seq<char>>, env: Environment) -> Result<
    Seq<Seq<char>>,
    Seq<char>,
>
    decreases paths.len(),
{
    if paths.len() == 0 {
        Ok(Seq::empty())
    } else {
        match expanded_all(paths.drop_last(), work_dir, env) {
            Err(m) => Err(m),
            Ok(done) => match expanded(paths.last(), work_dir, env) {
                Err(m) => Err(m),
                Ok(e) => Ok(done.push(e)),
            },
        }
    }
}

/// What a launch descriptor holds.
pub struct CommandView {
    /// The program, expanded.
    pub command: Seq<char>,
    /// The arguments, each expanded.
    pub parameters: Seq<Seq<char>>,
    /// The file that standard output goes to.
    pub log_file_out: Option<Seq<char>>,
    /// The file that standard error goes to.
    pub log_file_err: Option<Seq<char>>,
    /// The directory to run in.
    pub work_dir: Option<Seq<char>>,
    /// The file of environment variables, as it was given.
    pub env_file: Option<Seq<char>>,
}

/// The descriptor that the tokens of a command line give, with the working
/// directory as it is and every other path expanded with it, or the message
/// of the failure. The first token is the program, the others are its
/// arguments.
pub open spec fn assembled(
    parts: Seq<Seq<char>>,
    logfile_out: Option<Seq<char>>,
    logfile_err: Option<Seq<char>>,
    work_dir: Option<Seq<char>>,
    env_file: Option<Seq<char>>,
    env: Environment,
) -> Result<CommandView, Seq<char>> {
    if parts.len() == 0 {
        Err(no_command())
    } else {
        match expanded(parts[0], work_dir, env) {
            Err(m) => Err(m),
            Ok(name) => match expanded_opt(logfile_out, work_dir, env) {
                Err(m) => Err(m),
                Ok(log_file_out) => match expanded_opt(logfile_err, work_dir, env) {
                    Err(m) => Err(m),
                    Ok(log_file_err) => match expanded_all(parts.skip(1), work_dir, env) {
                        Err(m) => Err(m),
                        Ok(parameters) => if name.len() == 0 {
                            Err(no_command())
                        } else {
                            Ok(
                                CommandView {
                                    command: name,
                                    parameters,
                                    log_file_out,
                                    log_file_err,
                                    work_dir,
                                    env_file,
                                },
                            )
                        },
                    },
                },
            },
        }
    }
}

/// The descriptor that a command line gives, or the message of the failure:
/// the working directory is expanded, the command line is split into its
/// tokens, and the descriptor is assembled from them.
pub open spec fn described(
    command: Seq<char>,
    logfile_out: Option<Seq<char>>,
    logfile_err: Option<Seq<char>>,
    workdir: Option<Seq<char>>,
    env_file: Option<Seq<char>>,
    env: Environment,
) -> Result<CommandView, Seq<char>> {
    if command.len() == 0 {
        Err(no_command())
    } else {
        match expanded_opt(workdir, None, env) {
            Err(m) => Err(m),
            Ok(work_dir) => match tokens(command) {
                None => Err("unterminated quote in command"@),
                Some(parts) => assembled(parts, logfile_out, logfile_err, work_dir, env_file, env),
            },
        }
    }
}

/// The rendering of a list of texts: `[]`, or each in double quotes, with
/// commas between, in square brackets.
pub open spec fn vector_text(v: Seq<Seq<char>>) -> Seq<char> {
    if v.len() == 0 {
        "[]"@
    } else {
        "[\""@ + join(v, "\",\""@) + "\"]"@
    }
}

/// The rendering of an optional text: the text, or `None`.
pub open spec fn option_text(o: Option<Seq<char>>) -> Seq<char> {
    match o {
        Some(s) => s,
        None => "None"@,
    }
}

/// The rendering of a launch descriptor on one line.
pub open spec fn rendering(c: CommandView) -> Seq<char> {
    "CommandToRun "@ + c.command + " parameters="@ + vector_text(c.parameters) + " log_file_out="@
        + option_text(c.log_file_out) + " log_file_err="@ + option_text(c.log_file_err)
        + " work_dir="@ + option_text(c.work_dir) + " env_file="@ + option_text(c.env_file)
}

/// The rendering of a list of strings.
pub fn format_vector(vector: &Vec<String>) -> (r: String)
    ensures
        r@ == vector_text(texts(vector@)),
{
    if vector.len() == 0 {
        return String::from_str("[]");
    }
    let mut r = String::from_str("[\"");
    r.append(join_strings(vector, "\",\"").as_str());
    r.append("\"]");
    r
}

/// A launch descriptor: the program, its arguments, and where it runs and
/// writes. It does not change once it is made.
#[derive(Debug)]
pub struct CommandToRun {
    command: String,
    parameters: Vec<String>,
    log_file_out: Option<String>,
    log_file_err: Option<String>,
    work_dir: Option<String>,
    env_file: Option<String>,
}

impl View for CommandToRun {
    type V = CommandView;

    closed spec fn view(&self) -> CommandView {
        CommandView {
            command: self.command@,
            parameters: texts(self.parameters@),
            log_file_out: opt_text(self.log_file_out),
            log_file_err: opt_text(self.log_file_err),
            work_dir: opt_text(self.work_dir),
            env_file: opt_text(self.env_file),
        }
    }
}

fn append_option(line: &mut String, o: &Option<String>)
    ensures
        final(line)@ == old(line)@ + option_text(opt_text(*o)),
{
    match o {
        Some(s) => line.append(s.as_str()),
        None => line.append("None"),
    }
}

impl CommandToRun {
    /// The descriptor for a command line, with the files that its output goes
    /// to, the directory it runs in and its file of environment variables.
    ///
    /// The working directory is expanded without a working directory; the
    /// program, the arguments and the two output files are expanded with the
    /// expanded working directory. The file of environment variables is kept as
    /// given. Fails, with a configuration error, where the command line is
    /// empty, has no token or an empty program, holds an unclosed double quote,
    /// or where a path cannot be expanded.
    pub fn new(
        command: String,
        logfile_out: Option<String>,
        logfile_err: Option<String>,
        workdir: Option<String>,
        env_file: Option<String>,
        env: &Environment,
    ) -> (r: Result<CommandToRun, Error>)
        ensures
            match described(
                command@,
                opt_text(logfile_out),
                opt_text(logfile_err),
                opt_text(workdir),
                opt_text(env_file),
                *env,
            ) {
                Ok(v) => r is Ok && r->Ok_0@ == v && v.command.len() > 0,
                Err(m) => r is Err && r->Err_0.describes(ErrorKind::ConfigError, m),
            },
    {
        if command.as_str().unicode_len() == 0 {
            return Err(build_invalid_data_error_str("command is empty"));
        }
        let work_dir = match workdir {
            Some(wd) => Some(CommandToRun::build_file_path(&wd, &None, env)?),
            None => None,
        };
        let parts = tokenize(command.as_str())?;
        CommandToRun::from_parts(parts, logfile_out, logfile_err, work_dir, env_file, env)
    }

    /// The descriptor for the tokens of a command line: the first is the
    /// program, the others are its arguments. The working directory is taken
    /// as it is; the program, the arguments and the two output files are
    /// expanded with it.
    ///
    /// Fails, with a configuration error, where there is no token or the
    /// program is empty, or where a path cannot be expanded.
    #[verifier::loop_isolation(false)]
    pub fn from_parts(
        parts: Vec<String>,
        logfile_out: Option<String>,
        logfile_err: Option<String>,
        work_dir: Option<String>,
        env_file: Option<String>,
        env: &Environment,
    ) -> (r: Result<CommandToRun, Error>)
        ensures
            match assembled(
                texts(parts@),
                opt_text(logfile_out),
                opt_text(logfile_err),
                opt_text(work_dir),
                opt_text(env_file),
                *env,
            ) {
                Ok(v) => r is Ok && r->Ok_0@ == v && v.command.len() > 0,
                Err(m) => r is Err && r->Err_0.describes(ErrorKind::ConfigError, m),
            },
    {
        if parts.len() == 0 {
            return Err(build_invalid_data_error_str("command is empty"));
        }
        let name = CommandToRun::build_file_path(&parts[0], &work_dir, env)?;
        let log_file_out = match logfile_out {
            Some(f) => Some(CommandToRun::build_file_path(&f, &work_dir, env)?),
            None => None,
        };
        let log_file_err = match logfile_err {
            Some(f) => Some(CommandToRun::build_file_path(&f, &work_dir, env)?),
            None => None,
        };
        let mut parameters: Vec<String> = Vec::new();
        let mut i: usize = 1;
        let ghost rest = texts(parts@).skip(1);
        assert(texts(parameters@) =~= Seq::<Seq<char>>::empty());
        while i < parts.len()
            invariant
                1 <= i <= parts.len(),
                rest == texts(parts@).skip(1),
                expanded_all(rest.take(i - 1), opt_text(work_dir), *env) == Ok::<
                    Seq<Seq<char>>,
                    Seq<char>,
                >(texts(parameters@)),
            decreases parts.len() - i,
        {
            proof {
                assert(rest.take(i as int).drop_last() =~= rest.take(i - 1));
            }
            match CommandToRun::build_file_path(&parts[i], &work_dir, env) {
                Ok(p) => {
                    proof {
                        lemma_texts_push(parameters@, p);
                    }
                    parameters.push(p);
                },
                Err(e) => {
                    proof {
                        lemma_expansion_fails(rest, i as int, opt_text(work_dir), *env);
                    }
                    return Err(e);
                },
            }
            i += 1;
        }
        assert(rest.take(parts.len() - 1) =~= rest);
        if name.as_str().unicode_len() == 0 {
            return Err(build_invalid_data_error_str("command is empty"));
        }
        Ok(CommandToRun { command: name, parameters, log_file_out, log_file_err, work_dir, env_file })
    }

    /// A path with `$PWD`, `~` and `$WD` replaced, wherever they stand in it.
    ///
    /// Fails, with a configuration error, where the current directory cannot
    /// be read, or where a `~` is left to replace and no home directory is set.
    pub fn build_file_path(path: &String, work_dir: &Option<String>, env: &Environment) -> (r: Result<
        String,
        Error,
    >)
        ensures
            match expanded(path@, opt_text(*work_dir), *env) {
                Ok(e) => r is Ok && r->Ok_0@ == e,
                Err(m) => r is Err && r->Err_0.describes(ErrorKind::ConfigError, m),
            },
    {
        let cwd = match &env.current_dir {
            Some(d) => d,
            None => {
                return Err(build_invalid_data_error_str("current directory cannot be read"));
            },
        };
        let mut result = replace(path.as_str(), "$PWD", cwd.as_str());
        match &env.home {
            Some(home) => {
                result = replace(result.as_str(), "~", home.as_str());
            },
            None => {
                if has_char(result.as_str(), '~') {
                    return Err(build_invalid_data_error_str("home directory is not set"));
                }
            },
        }
        if let Some(wd) = work_dir {
            result = replace(result.as_str(), "$WD", wd.as_str());
        }
        Ok(result)
    }

    /// The rendering of the descriptor on one line, as a dry run shows it.
    pub fn to_string(&self) -> (r: String)
        ensures
            r@ == rendering(self@),
    {
        let mut r = String::from_str("CommandToRun ");
        r.append(self.command.as_str());
        r.append(" parameters=");
        r.append(format_vector(&self.parameters).as_str());
        r.append(" log_file_out=");
        append_option(&mut r, &self.log_file_out);
        r.append(" log_file_err=");
        append_option(&mut r, &self.log_file_err);
        r.append(" work_dir=");
        append_option(&mut r, &self.work_dir);
        r.append(" env_file=");
        append_option(&mut r, &self.env_file);
        r
    }

    /// The path of the file of environment variables, expanded with the
    /// working directory; none where the descriptor names no such file.
    pub fn env_file_path(&self, env: &Environment) -> (r: Result<Option<String>, Error>)
        ensures
            match expanded_opt(self@.env_file, self@.work_dir, *env) {
                Ok(p) => r is Ok && opt_text(r->Ok_0) == p,
                Err(m) => r is Err && r->Err_0.describes(ErrorKind::ConfigError, m),
            },
    {
        match &self.env_file {
            Some(f) => Ok(Some(CommandToRun::build_file_path(f, &self.work_dir, env)?)),
            None => Ok(None),
        }
    }

    /// Shows the descriptor instead of running it: writes its rendering.
    pub fn dry_run(&self, writer: &mut WriterWithTCP)
        ensures
            final(writer)@ == old(writer)@.push(rendering(self@)),
    {
        writer.write_string(self.to_string());
    }

    /// The program.
    pub fn program(&self) -> (r: &String)
        ensures
            r@ == self@.command,
    {
        &self.command
    }

    /// The arguments.
    pub fn parameters(&self) -> (r: &Vec<String>)
        ensures
            texts(r@) == self@.parameters,
    {
        &self.parameters
    }

    /// The file that standard output goes to.
    pub fn log_file_out(&self) -> (r: &Option<String>)
        ensures
            opt_text(*r) == self@.log_file_out,
    {
        &self.log_file_out
    }

    /// The file that standard error goes to.
    pub fn log_file_err(&self) -> (r: &Option<String>)
        ensures
            opt_text(*r) == self@.log_file_err,
    {
        &self.log_file_err
    }

    /// The directory to run in.
    pub fn work_dir(&self) -> (r: &Option<String>)
        ensures
            opt_text(*r) == self@.work_dir,
    {
        &self.work_dir
    }

    /// A copy of the descriptor.
    pub fn copy(&self) -> (r: CommandToRun)
        ensures
            r@ == self@,
    {
        CommandToRun {
            command: self.command.clone(),
            parameters: copy_strings(&self.parameters),
            log_file_out: copy_option(&self.log_file_out),
            log_file_err: copy_option(&self.log_file_err),
            work_dir: copy_option(&self.work_dir),
            env_file: copy_option(&self.env_file),
        }
    }
}

/// None of the three tokens of a path can overlap itself.
pub proof fn lemma_path_tokens_unbordered()
    ensures
        unbordered("$PWD"@),
        unbordered("~"@),
        unbordered("$WD"@),
{
    reveal_strlit("$PWD");
    reveal_strlit("~");
    reveal_strlit("$WD");
    let p = "$PWD"@;
    assert forall|k: int| 0 < k < p.len() implies #[trigger] p.skip(k) != p.take(p.len() - k) by {
        assert(p.skip(k)[0] != p.take(p.len() - k)[0]);
    }
    let w = "$WD"@;
    assert forall|k: int| 0 < k < w.len() implies #[trigger] w.skip(k) != w.take(w.len() - k) by {
        assert(w.skip(k)[0] != w.take(w.len() - k)[0]);
    }
}

/// The substitutions are textual: each of the three tokens is replaced
/// wherever it stands, between any `a` and any `b`, and what stands before and
/// after it is replaced as if it stood alone.
pub proof fn lemma_tokens_replaced_anywhere(a: Seq<char>, b: Seq<char>, with: Seq<char>)
    ensures
        replace_all(a + "$PWD"@ + b, "$PWD"@, with) == replace_all(a, "$PWD"@, with) + with
            + replace_all(b, "$PWD"@, with),
        replace_all(a + "~"@ + b, "~"@, with) == replace_all(a, "~"@, with) + with + replace_all(
            b,
            "~"@,
            with,
        ),
        replace_all(a + "$WD"@ + b, "$WD"@, with) == replace_all(a, "$WD"@, with) + with
            + replace_all(b, "$WD"@, with),
{
    lemma_path_tokens_unbordered();
    lemma_replace_anywhere(a, b, "$PWD"@, with);
    lemma_replace_anywhere(a, b, "~"@, with);
    lemma_replace_anywhere(a, b, "$WD"@, with);
}

/// A path in which neither `$PWD` nor `~` stands is expanded to itself,
/// where no working directory is given, the current directory can be read and
/// a home directory is set.
pub proof fn lemma_plain_path(path: Seq<char>, env: Environment)
    requires
        !occurs(path, "$PWD"@),
        !occurs(path, "~"@),
        env.current_dir is Some,
        env.home is Some,
    ensures
        expanded(path, None, env) == Ok::<Seq<char>, Seq<char>>(path),
{
    lemma_replace_absent(path, "$PWD"@, env.current_dir->Some_0@);
    lemma_replace_absent(path, "~"@, env.home->Some_0@);
}

/// Paths in none of which `$PWD` or `~` stands are expanded to themselves.
pub proof fn lemma_plain_paths(paths: Seq<Seq<char>>, env: Environment)
    requires
        forall|i: int| 0 <= i < paths.len() ==> !occurs(#[trigger] paths[i], "$PWD"@),
        forall|i: int| 0 <= i < paths.len() ==> !occurs(#[trigger] paths[i], "~"@),
        env.current_dir is Some,
        env.home is Some,
    ensures
        expanded_all(paths, None, env) == Ok::<Seq<Seq<char>>, Seq<char>>(paths),
    decreases paths.len(),
{
    if paths.len() > 0 {
        let before = paths.drop_last();
        assert forall|i: int| 0 <= i < before.len() implies !occurs(
            #[trigger] before[i],
            "$PWD"@,
        ) && !occurs(before[i], "~"@) by {
            assert(before[i] == paths[i]);
        }
        lemma_plain_paths(before, env);
        lemma_plain_path(paths.last(), env);
        assert(before.push(paths.last()) =~= paths);
    } else {
        assert(paths =~= Seq::<Seq<char>>::empty());
    }
}

/// A command line without double quotes, in which neither `$PWD` nor `~`
/// stands, is launched as its words: the first word is the program and the
/// others are the arguments, each as it stands in the line, in their order.
/// This holds of every such line that has a word, with no working directory,
/// where the current directory can be read and a home directory is set.
pub proof fn lemma_plain_command_line(
    command: Seq<char>,
    env_file: Option<Seq<char>>,
    env: Environment,
)
    requires
        !command.contains('"'),
        words(command).len() > 0,
        !occurs(command, "$PWD"@),
        !occurs(command, "~"@),
        env.current_dir is Some,
        env.home is Some,
    ensures
        described(command, None, None, None, env_file, env) == Ok::<CommandView, Seq<char>>(
            CommandView {
                command: words(command)[0],
                parameters: words(command).skip(1),
                log_file_out: None,
                log_file_err: None,
                work_dir: None,
                env_file,
            },
        ),
{
    let w = words(command);
    if command.len() == 0 {
        lemma_filled_one(command);
    }
    lemma_unquoted_splits_at_blanks(command);
    lemma_words_within(command, "$PWD"@);
    lemma_words_within(command, "~"@);
    lemma_plain_path(w[0], env);
    assert forall|i: int| 0 <= i < w.skip(1).len() implies !occurs(
        #[trigger] w.skip(1)[i],
        "$PWD"@,
    ) && !occurs(w.skip(1)[i], "~"@) by {
        assert(w.skip(1)[i] == w[i + 1]);
    }
    lemma_plain_paths(w.skip(1), env);
}

/// Where one path cannot be expanded, the list cannot.
pub proof fn lemma_expansion_fails(
    paths: Seq<Seq<char>>,
    n: int,
    work_dir: Option<Seq<char>>,
    env: Environment,
)
    requires
        0 < n <= paths.len(),
        expanded_all(paths.take(n), work_dir, env) is Err,
    ensures
        expanded_all(paths, work_dir, env) == expanded_all(paths.take(n), work_dir, env),
    decreases paths.len(),
{
    if n < paths.len() {
        assert(paths.drop_last().take(n) =~= paths.take(n));
        lemma_expansion_fails(paths.drop_last(), n, work_dir, env);
    } else {
        assert(paths.take(n) =~= paths);
    }
}

} // verus!
