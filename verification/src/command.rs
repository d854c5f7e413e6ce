//! A command line, put together field by field.

use vstd::prelude::*;

verus! {

/// The texts of `words`, in order.
pub open spec fn texts_of(words: Seq<String>) -> Seq<Seq<char>> {
    words.map_values(|word: String| word@)
}

/// A program to run, with its arguments, its environment and the directory
/// to run it in.
#[derive(Debug, PartialEq, Eq)]
pub struct Command {
    executable: String,
    args: Vec<String>,
    env: Vec<String>,
    current_dir: Option<String>,
}

/// The mathematical value of a [`Command`].
pub struct CommandModel {
    pub executable: Seq<char>,
    pub args: Seq<Seq<char>>,
    pub env: Seq<Seq<char>>,
    pub current_dir: Option<Seq<char>>,
}

/// The fields of a [`Command`] that were given so far.
#[derive(Debug, PartialEq, Eq)]
pub struct CommandBuilder {
    executable: Option<String>,
    args: Option<Vec<String>>,
    env: Option<Vec<String>>,
    current_dir: Option<String>,
}

/// The mathematical value of a [`CommandBuilder`].
pub struct CommandBuilderModel {
    pub executable: Option<Seq<char>>,
    pub args: Option<Seq<Seq<char>>>,
    pub env: Option<Seq<Seq<char>>>,
    pub current_dir: Option<Seq<char>>,
}

/// Why a command could not be built.
#[derive(Clone, Copy, Debug, PartialEq, Eq, Structural)]
pub enum BuildError {
    /// The executable was never given.
    ExecutableNotSet,
}

impl View for Command {
    type V = CommandModel;

    closed spec fn view(&self) -> CommandModel {
        CommandModel {
            executable: self.executable@,
            args: texts_of(self.args@),
            env: texts_of(self.env@),
            current_dir: match self.current_dir {
                Some(dir) => Some(dir@),
                None => None,
            },
        }
    }
}

impl View for CommandBuilder {
    type V = CommandBuilderModel;

    closed spec fn view(&self) -> CommandBuilderModel {
        CommandBuilderModel {
            executable: match self.executable {
                Some(name) => Some(name@),
                None => None,
            },
            args: match self.args {
                Some(words) => Some(texts_of(words@)),
                None => None,
            },
            env: match self.env {
                Some(words) => Some(texts_of(words@)),
                None => None,
            },
            current_dir: match self.current_dir {
                Some(dir) => Some(dir@),
                None => None,
            },
        }
    }
}

impl CommandBuilderModel {
    /// The command that these fields make: the executable is needed, missing
    /// arguments and a missing environment are empty, the directory may be
    /// missing.
    pub open spec fn built(self) -> Result<CommandModel, BuildError> {
        match self.executable {
            Some(executable) => Ok(
                CommandModel {
                    executable,
                    args: match self.args {
                        Some(words) => words,
                        None => Seq::empty(),
                    },
                    env: match self.env {
                        Some(words) => words,
                        None => Seq::empty(),
                    },
                    current_dir: self.current_dir,
                },
            ),
            None => Err(BuildError::ExecutableNotSet),
        }
    }
}

/// A copy of `words`.
fn copy_words(words: &Vec<String>) -> (copy: Vec<String>)
    ensures
        texts_of(copy@) == texts_of(words@),
{
    let mut copy: Vec<String> = Vec::new();
    let mut i: usize = 0;
    while i < words.len()
        invariant
            i <= words.len(),
            copy.len() == i,
            forall|k: int| 0 <= k < i ==> copy@[k]@ == words@[k]@,
        decreases words.len() - i,
    {
        copy.push(words[i].clone());
        i += 1;
    }
    assert(texts_of(copy@) =~= texts_of(words@));
    copy
}

impl Command {
    /// A builder with no field given.
    pub fn builder() -> (builder: CommandBuilder)
        ensures
            builder@ == (CommandBuilderModel {
                executable: None,
                args: None,
                env: None,
                current_dir: None,
            }),
    {
        CommandBuilder { executable: None, args: None, env: None, current_dir: None }
    }

    /// The program to run.
    pub fn executable(&self) -> (name: &String)
        ensures
            name@ == self@.executable,
    {
        &self.executable
    }

    /// The arguments, in order.
    pub fn args(&self) -> (words: &Vec<String>)
        ensures
            texts_of(words@) == self@.args,
    {
        &self.args
    }

    /// The environment, in order.
    pub fn env(&self) -> (words: &Vec<String>)
        ensures
            texts_of(words@) == self@.env,
    {
        &self.env
    }

    /// The directory to run in, if one was given.
    pub fn current_dir(&self) -> (dir: &Option<String>)
        ensures
            match dir {
                Some(dir) => self@.current_dir == Some(dir@),
                None => self@.current_dir is None,
            },
    {
        &self.current_dir
    }
}

impl CommandBuilder {
    /// Gives the executable.
    pub fn executable(&mut self, value: String) -> (same: &mut Self)
        ensures
            same@ == (CommandBuilderModel { executable: Some(value@), ..old(self)@ }),
            *final(self) == *final(same),
    {
        self.executable = Some(value);
        self
    }

    /// Gives the arguments.
    pub fn args(&mut self, value: Vec<String>) -> (same: &mut Self)
        ensures
            same@ == (CommandBuilderModel { args: Some(texts_of(value@)), ..old(self)@ }),
            *final(self) == *final(same),
    {
        self.args = Some(value);
        self
    }

    /// Gives the environment.
    pub fn env(&mut self, value: Vec<String>) -> (same: &mut Self)
        ensures
            same@ == (CommandBuilderModel { env: Some(texts_of(value@)), ..old(self)@ }),
            *final(self) == *final(same),
    {
        self.env = Some(value);
        self
    }

    /// Gives the directory to run in.
    pub fn current_dir(&mut self, value: String) -> (same: &mut Self)
        ensures
            same@ == (CommandBuilderModel { current_dir: Some(value@), ..old(self)@ }),
            *final(self) == *final(same),
    {
        self.current_dir = Some(value);
        self
    }

    /// The command that the fields given so far make. It needs the
    /// executable; arguments and environment are empty where they were not
    /// given.
    pub fn build(&self) -> (out: Result<Command, BuildError>)
        ensures
            match out {
                Ok(command) => self@.built() == Ok::<CommandModel, BuildError>(command@),
                Err(error) => self@.built() == Err::<CommandModel, BuildError>(error),
            },
    {
        let executable = match &self.executable {
            Some(name) => name.clone(),
            None => {
                return Err(BuildError::ExecutableNotSet);
            },
        };
        let args = match &self.args {
            Some(words) => copy_words(words),
            None => Vec::new(),
        };
        let env = match &self.env {
            Some(words) => copy_words(words),
            None => Vec::new(),
        };
        let current_dir = match &self.current_dir {
            Some(dir) => Some(dir.clone()),
            None => None,
        };
        assert(self.args is None ==> texts_of(args@) =~= Seq::<Seq<char>>::empty());
        assert(self.env is None ==> texts_of(env@) =~= Seq::<Seq<char>>::empty());
        Ok(Command { executable, args, env, current_dir })
    }
}

} // verus!
