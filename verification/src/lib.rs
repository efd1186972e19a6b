//! Core of an interactive browser for a codebase's recompilation-dependency
//! graph. The library holds the verified logic: the line-oriented protocol
//! to the analysis server (framing, sequence ids, response correlation and
//! the JSON wire codec), the event dispatch engine, the view/search state
//! machines, the two-level dependency-chain navigator, and list filtering.
//! Terminal rendering and process plumbing live outside, in the binary.
use vstd::prelude::*;

pub mod adapter;
pub mod app_event;
pub mod app_state;
pub mod components;
pub mod dispatch;
pub mod utils;
pub mod wire;

verus! {

/// Why a file must be recompiled when the file it depends on changes.
#[derive(Clone, Copy, Debug, PartialEq, Eq, Structural)]
pub enum RecomplileDependencyReason {
    Compile,
    ExportsThenCompile,
    Exports,
    CompileThenRuntime,
}

/// The kind of one hop in a dependency chain.
#[derive(Clone, Copy, Debug, PartialEq, Eq, Structural)]
pub enum DependencyType {
    Compile,
    Exports,
    Runtime,
}

pub type FilePath = String;

/// One hop (`source` -> `sink`) in the causal chain explaining a dependency.
#[derive(Debug, PartialEq)]
pub struct DependencyLink {
    pub dependency_type: DependencyType,
    pub source: FilePath,
    pub sink: FilePath,
}

/// A file that must recompile when the anchor file changes, with the causal
/// reason and an explanatory chain of links, root to leaf.
#[derive(Debug, PartialEq)]
pub struct RecomplileDependency {
    pub id: String,
    pub path: FilePath,
    pub reason: RecomplileDependencyReason,
    pub dependency_chain: Vec<DependencyLink>,
}

/// One source file plus the list of files that depend on it.
#[derive(Debug, PartialEq)]
pub struct FileEntry {
    pub path: FilePath,
    pub recompile_dependencies: Vec<RecomplileDependency>,
}

/// The explanation for one (source, sink) dependency pair, with the code
/// snippets that caused the link.
#[derive(Debug, PartialEq)]
pub struct DependencyCause {
    pub source: FilePath,
    pub sink: FilePath,
    pub snippets: Vec<CodeSnippet>,
    pub dependency_type: DependencyType,
}

/// A piece of source text with an inclusive highlighted line range inside an
/// inclusive absolute line range covering `content`.
#[derive(Debug, PartialEq)]
pub struct CodeSnippet {
    pub content: String,
    pub highlight: (usize, usize),
    pub lines_span: (usize, usize),
}

/// Mathematical model of a [`DependencyLink`].
#[verifier::ext_equal]
pub struct LinkModel {
    pub dependency_type: DependencyType,
    pub source: Seq<char>,
    pub sink: Seq<char>,
}

/// Mathematical model of a [`RecomplileDependency`].
#[verifier::ext_equal]
pub struct RecomplileDependencyModel {
    pub id: Seq<char>,
    pub path: Seq<char>,
    pub reason: RecomplileDependencyReason,
    pub dependency_chain: Seq<LinkModel>,
}

/// Mathematical model of a [`FileEntry`].
#[verifier::ext_equal]
pub struct FileEntryModel {
    pub path: Seq<char>,
    pub recompile_dependencies: Seq<RecomplileDependencyModel>,
}

/// Mathematical model of a [`DependencyCause`].
#[verifier::ext_equal]
pub struct CauseModel {
    pub source: Seq<char>,
    pub sink: Seq<char>,
    pub snippets: Seq<SnippetModel>,
    pub dependency_type: DependencyType,
}

/// Mathematical model of a [`CodeSnippet`].
#[verifier::ext_equal]
pub struct SnippetModel {
    pub content: Seq<char>,
    pub highlight: (usize, usize),
    pub lines_span: (usize, usize),
}

impl View for DependencyLink {
    type V = LinkModel;

    open spec fn view(&self) -> LinkModel {
        LinkModel {
            dependency_type: self.dependency_type,
            source: self.source@,
            sink: self.sink@,
        }
    }
}

impl DeepView for DependencyLink {
    type V = LinkModel;

    open spec fn deep_view(&self) -> LinkModel {
        self.view()
    }
}

impl View for RecomplileDependency {
    type V = RecomplileDependencyModel;

    open spec fn view(&self) -> RecomplileDependencyModel {
        RecomplileDependencyModel {
            id: self.id@,
            path: self.path@,
            reason: self.reason,
            dependency_chain: self.dependency_chain.deep_view(),
        }
    }
}

impl DeepView for RecomplileDependency {
    type V = RecomplileDependencyModel;

    open spec fn deep_view(&self) -> RecomplileDependencyModel {
        self.view()
    }
}

impl View for FileEntry {
    type V = FileEntryModel;

    open spec fn view(&self) -> FileEntryModel {
        FileEntryModel {
            path: self.path@,
            recompile_dependencies: self.recompile_dependencies.deep_view(),
        }
    }
}

impl DeepView for FileEntry {
    type V = FileEntryModel;

    open spec fn deep_view(&self) -> FileEntryModel {
        self.view()
    }
}

impl View for DependencyCause {
    type V = CauseModel;

    open spec fn view(&self) -> CauseModel {
        CauseModel {
            source: self.source@,
            sink: self.sink@,
            snippets: self.snippets.deep_view(),
            dependency_type: self.dependency_type,
        }
    }
}

impl DeepView for DependencyCause {
    type V = CauseModel;

    open spec fn deep_view(&self) -> CauseModel {
        self.view()
    }
}

impl View for CodeSnippet {
    type V = SnippetModel;

    open spec fn view(&self) -> SnippetModel {
        SnippetModel {
            content: self.content@,
            highlight: self.highlight,
            lines_span: self.lines_span,
        }
    }
}

impl DeepView for CodeSnippet {
    type V = SnippetModel;

    open spec fn deep_view(&self) -> SnippetModel {
        self.view()
    }
}

impl Clone for DependencyLink {
    fn clone(&self) -> (res: Self)
        ensures
            res == *self,
    {
        DependencyLink {
            dependency_type: self.dependency_type,
            source: self.source.clone(),
            sink: self.sink.clone(),
        }
    }
}

impl Clone for RecomplileDependency {
    fn clone(&self) -> (res: Self)
        ensures
            res@ == self@,
    {
        let dependency_chain = self.dependency_chain.clone();
        proof {
            assert forall|i: int|
                0 <= i < dependency_chain@.len() implies dependency_chain@[i]
                == self.dependency_chain@[i] by {
                assert(cloned::<DependencyLink>(self.dependency_chain[i], dependency_chain[i]));
            }
            assert(dependency_chain@ =~= self.dependency_chain@);
        }
        let res = RecomplileDependency {
            id: self.id.clone(),
            path: self.path.clone(),
            reason: self.reason,
            dependency_chain,
        };
        proof {
            assert(res@ =~= self@);
        }
        res
    }
}

impl Clone for FileEntry {
    fn clone(&self) -> (res: Self)
        ensures
            res@ == self@,
    {
        let recompile_dependencies = self.recompile_dependencies.clone();
        proof {
            assert forall|i: int|
                0 <= i < recompile_dependencies@.len() implies recompile_dependencies@[i]@
                == self.recompile_dependencies@[i]@ by {
                assert(cloned::<RecomplileDependency>(
                    self.recompile_dependencies[i],
                    recompile_dependencies[i],
                ));
            }
        }
        let res = FileEntry { path: self.path.clone(), recompile_dependencies };
        proof {
            assert(res@.recompile_dependencies =~= self@.recompile_dependencies);
            assert(res@ =~= self@);
        }
        res
    }
}

impl Clone for CodeSnippet {
    fn clone(&self) -> (res: Self)
        ensures
            res == *self,
    {
        CodeSnippet {
            content: self.content.clone(),
            highlight: self.highlight,
            lines_span: self.lines_span,
        }
    }
}

impl Clone for DependencyCause {
    fn clone(&self) -> (res: Self)
        ensures
            res@ == self@,
    {
        let snippets = self.snippets.clone();
        proof {
            assert forall|i: int|
                0 <= i < snippets@.len() implies snippets@[i] == self.snippets@[i] by {
                assert(cloned::<CodeSnippet>(self.snippets[i], snippets[i]));
            }
            assert(snippets@ =~= self.snippets@);
        }
        let res = DependencyCause {
            source: self.source.clone(),
            sink: self.sink.clone(),
            snippets,
            dependency_type: self.dependency_type,
        };
        proof {
            assert(res@ =~= self@);
        }
        res
    }
}

} // verus!
