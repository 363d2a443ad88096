//! Which functions are replaced when the game looks them up, and how the real
//! ones are found.

use crate::text::same_text;
use vstd::prelude::*;

verus! {

/// A function that is replaced.
#[derive(Clone, Copy, Debug, PartialEq, Eq, Structural)]
pub enum Hook {
    GlViewport,
    GlScissor,
    GlBindFramebuffer,
    GlBindFramebufferExt,
    GlBindFramebufferArb,
    GlDrawBuffer,
    GlReadBuffer,
    GlDrawBuffers,
    GlBlitFramebuffer,
    GlfwGetProcAddress,
    SetKeyCallback,
    SetMouseButtonCallback,
    SetCursorPosCallback,
    SetScrollCallback,
    SetCharCallback,
    SetCharModsCallback,
    SetFramebufferSizeCallback,
    GetFramebufferSize,
    SetInputMode,
    GetKey,
    GetMouseButton,
    GetCursorPos,
    SetWindowTitle,
    EglGetProcAddress,
    EglSwapBuffers,
    GlxGetProcAddress,
    GlxSwapBuffers,
    CglFlushDrawable,
    GlfwSwapBuffers,
}

/// The system that the game runs on.
#[derive(Clone, Copy, Debug, PartialEq, Eq, Structural)]
pub enum Platform {
    Linux,
    MacOs,
}

/// The drawing functions, which can be looked up in two ways.
pub open spec fn drawing_hook(name: Seq<char>) -> Option<Hook> {
    if name == "glViewport"@ {
        Some(Hook::GlViewport)
    } else if name == "glScissor"@ {
        Some(Hook::GlScissor)
    } else if name == "glBindFramebuffer"@ {
        Some(Hook::GlBindFramebuffer)
    } else if name == "glBindFramebufferEXT"@ {
        Some(Hook::GlBindFramebufferExt)
    } else if name == "glBindFramebufferARB"@ {
        Some(Hook::GlBindFramebufferArb)
    } else if name == "glDrawBuffer"@ {
        Some(Hook::GlDrawBuffer)
    } else if name == "glReadBuffer"@ {
        Some(Hook::GlReadBuffer)
    } else if name == "glDrawBuffers"@ {
        Some(Hook::GlDrawBuffers)
    } else {
        None
    }
}

/// The functions that are replaced on every system.
pub open spec fn common_hook(name: Seq<char>) -> Option<Hook> {
    if name == "glBlitFramebuffer"@ {
        Some(Hook::GlBlitFramebuffer)
    } else if name == "glfwGetProcAddress"@ {
        Some(Hook::GlfwGetProcAddress)
    } else if name == "glfwSetKeyCallback"@ {
        Some(Hook::SetKeyCallback)
    } else if name == "glfwSetMouseButtonCallback"@ {
        Some(Hook::SetMouseButtonCallback)
    } else if name == "glfwSetCursorPosCallback"@ {
        Some(Hook::SetCursorPosCallback)
    } else if name == "glfwSetScrollCallback"@ {
        Some(Hook::SetScrollCallback)
    } else if name == "glfwSetCharCallback"@ {
        Some(Hook::SetCharCallback)
    } else if name == "glfwSetCharModsCallback"@ {
        Some(Hook::SetCharModsCallback)
    } else if name == "glfwSetFramebufferSizeCallback"@ {
        Some(Hook::SetFramebufferSizeCallback)
    } else if name == "glfwGetFramebufferSize"@ {
        Some(Hook::GetFramebufferSize)
    } else if name == "glfwSetInputMode"@ {
        Some(Hook::SetInputMode)
    } else if name == "glfwGetKey"@ {
        Some(Hook::GetKey)
    } else if name == "glfwGetMouseButton"@ {
        Some(Hook::GetMouseButton)
    } else if name == "glfwGetCursorPos"@ {
        Some(Hook::GetCursorPos)
    } else if name == "glfwSetWindowTitle"@ {
        Some(Hook::SetWindowTitle)
    } else {
        None
    }
}

/// The functions that are replaced on one system only: those that swap the
/// buffers, and those that look up others.
pub open spec fn platform_hook(name: Seq<char>, platform: Platform) -> Option<Hook> {
    match platform {
        Platform::Linux => linux_hook(name),
        Platform::MacOs => macos_hook(name),
    }
}

pub open spec fn linux_hook(name: Seq<char>) -> Option<Hook> {
    if name == "eglGetProcAddress"@ {
        Some(Hook::EglGetProcAddress)
    } else if name == "eglSwapBuffers"@ {
        Some(Hook::EglSwapBuffers)
    } else if name == "glXGetProcAddressARB"@ {
        Some(Hook::GlxGetProcAddress)
    } else if name == "glXSwapBuffers"@ {
        Some(Hook::GlxSwapBuffers)
    } else {
        None
    }
}

pub open spec fn macos_hook(name: Seq<char>) -> Option<Hook> {
    if name == "CGLFlushDrawable"@ {
        Some(Hook::CglFlushDrawable)
    } else if name == "glfwSwapBuffers"@ {
        Some(Hook::GlfwSwapBuffers)
    } else {
        None
    }
}

/// What replaces a function of this name.
pub open spec fn hook_of(name: Seq<char>, platform: Platform) -> Option<Hook> {
    match drawing_hook(name) {
        Some(h) => Some(h),
        None => match common_hook(name) {
            Some(h) => Some(h),
            None => platform_hook(name, platform),
        },
    }
}

fn find_drawing_hook(name: &str) -> (r: Option<Hook>)
    ensures
        r == drawing_hook(name@),
{
    if same_text(name, "glViewport") {
        Some(Hook::GlViewport)
    } else if same_text(name, "glScissor") {
        Some(Hook::GlScissor)
    } else if same_text(name, "glBindFramebuffer") {
        Some(Hook::GlBindFramebuffer)
    } else if same_text(name, "glBindFramebufferEXT") {
        Some(Hook::GlBindFramebufferExt)
    } else if same_text(name, "glBindFramebufferARB") {
        Some(Hook::GlBindFramebufferArb)
    } else if same_text(name, "glDrawBuffer") {
        Some(Hook::GlDrawBuffer)
    } else if same_text(name, "glReadBuffer") {
        Some(Hook::GlReadBuffer)
    } else if same_text(name, "glDrawBuffers") {
        Some(Hook::GlDrawBuffers)
    } else {
        None
    }
}

fn find_common_hook(name: &str) -> (r: Option<Hook>)
    ensures
        r == common_hook(name@),
{
    if same_text(name, "glBlitFramebuffer") {
        Some(Hook::GlBlitFramebuffer)
    } else if same_text(name, "glfwGetProcAddress") {
        Some(Hook::GlfwGetProcAddress)
    } else if same_text(name, "glfwSetKeyCallback") {
        Some(Hook::SetKeyCallback)
    } else if same_text(name, "glfwSetMouseButtonCallback") {
        Some(Hook::SetMouseButtonCallback)
    } else if same_text(name, "glfwSetCursorPosCallback") {
        Some(Hook::SetCursorPosCallback)
    } else if same_text(name, "glfwSetScrollCallback") {
        Some(Hook::SetScrollCallback)
    } else if same_text(name, "glfwSetCharCallback") {
        Some(Hook::SetCharCallback)
    } else if same_text(name, "glfwSetCharModsCallback") {
        Some(Hook::SetCharModsCallback)
    } else if same_text(name, "glfwSetFramebufferSizeCallback") {
        Some(Hook::SetFramebufferSizeCallback)
    } else if same_text(name, "glfwGetFramebufferSize") {
        Some(Hook::GetFramebufferSize)
    } else if same_text(name, "glfwSetInputMode") {
        Some(Hook::SetInputMode)
    } else if same_text(name, "glfwGetKey") {
        Some(Hook::GetKey)
    } else if same_text(name, "glfwGetMouseButton") {
        Some(Hook::GetMouseButton)
    } else if same_text(name, "glfwGetCursorPos") {
        Some(Hook::GetCursorPos)
    } else if same_text(name, "glfwSetWindowTitle") {
        Some(Hook::SetWindowTitle)
    } else {
        None
    }
}

fn find_linux_hook(name: &str) -> (r: Option<Hook>)
    ensures
        r == linux_hook(name@),
{
    if same_text(name, "eglGetProcAddress") {
        Some(Hook::EglGetProcAddress)
    } else if same_text(name, "eglSwapBuffers") {
        Some(Hook::EglSwapBuffers)
    } else if same_text(name, "glXGetProcAddressARB") {
        Some(Hook::GlxGetProcAddress)
    } else if same_text(name, "glXSwapBuffers") {
        Some(Hook::GlxSwapBuffers)
    } else {
        None
    }
}

fn find_macos_hook(name: &str) -> (r: Option<Hook>)
    ensures
        r == macos_hook(name@),
{
    if same_text(name, "CGLFlushDrawable") {
        Some(Hook::CglFlushDrawable)
    } else if same_text(name, "glfwSwapBuffers") {
        Some(Hook::GlfwSwapBuffers)
    } else {
        None
    }
}

/// Where a real function is looked up: in the library that was asked, or in the
/// one that follows this one.
#[derive(Clone, Copy, Debug, PartialEq, Eq, Structural)]
pub enum Source {
    Handle,
    Next,
}

/// A lookup function that is worth keeping on the way.
#[derive(Clone, Copy, Debug, PartialEq, Eq, Structural)]
pub enum ProcLoader {
    Egl,
    Glx,
}

/// The answer to a lookup.
#[derive(Clone, Copy, Debug, PartialEq, Eq, Structural)]
pub enum Lookup {
    /// The real one.
    PassThrough,
    /// The replacement. The real one is looked up in `source` and kept if it is
    /// there; with it, `loader` is looked up where [`find_loader_source`]
    /// says, and kept.
    Replace { hook: Hook, source: Source, loader: Option<ProcLoader> },
}

/// Where the real function behind a replacement is looked up.
pub open spec fn source_of(hook: Hook) -> Source {
    match hook {
        Hook::GlxGetProcAddress => Source::Next,
        _ => Source::Handle,
    }
}

/// The lookup function that is kept with a real function.
pub open spec fn loader_of(hook: Hook) -> Option<ProcLoader> {
    match hook {
        Hook::EglSwapBuffers => Some(ProcLoader::Egl),
        Hook::GlxSwapBuffers => Some(ProcLoader::Glx),
        _ => None,
    }
}

/// Where a lookup function is looked up.
pub open spec fn loader_source(loader: ProcLoader) -> Source {
    match loader {
        ProcLoader::Egl => Source::Handle,
        ProcLoader::Glx => Source::Next,
    }
}

pub fn find_loader_source(loader: ProcLoader) -> (r: Source)
    ensures
        r == loader_source(loader),
{
    match loader {
        ProcLoader::Egl => Source::Handle,
        ProcLoader::Glx => Source::Next,
    }
}

/// The answer to a lookup by name; one without a name is passed on.
pub open spec fn lookup_of(name: Option<Seq<char>>, platform: Platform) -> Lookup {
    match name {
        None => Lookup::PassThrough,
        Some(n) => match hook_of(n, platform) {
            None => Lookup::PassThrough,
            Some(hook) => Lookup::Replace {
                hook,
                source: source_of(hook),
                loader: loader_of(hook),
            },
        },
    }
}

pub fn dlsym_hook_impl(name: Option<&str>, platform: Platform) -> (r: Lookup)
    ensures
        r == lookup_of(
            match name {
                Some(n) => Some(n@),
                None => None,
            },
            platform,
        ),
{
    let n = match name {
        Some(n) => n,
        None => {
            return Lookup::PassThrough;
        },
    };
    let hook = match find_drawing_hook(n) {
        Some(h) => Some(h),
        None => match find_common_hook(n) {
            Some(h) => Some(h),
            None => match platform {
                Platform::Linux => find_linux_hook(n),
                Platform::MacOs => find_macos_hook(n),
            },
        },
    };
    match hook {
        None => Lookup::PassThrough,
        Some(h) => {
            let source = match h {
                Hook::GlxGetProcAddress => Source::Next,
                _ => Source::Handle,
            };
            let loader = match h {
                Hook::EglSwapBuffers => Some(ProcLoader::Egl),
                Hook::GlxSwapBuffers => Some(ProcLoader::Glx),
                _ => None,
            };
            Lookup::Replace { hook: h, source, loader }
        },
    }
}

/// The answer to a lookup through the drawing library.
#[derive(Clone, Copy, Debug, PartialEq, Eq, Structural)]
pub enum ProcLookup {
    /// Nothing: the lookup has no name.
    Nothing,
    /// The replacement; the real one is asked for and kept where the library's
    /// own lookup is known.
    Replace { hook: Hook, keep: bool },
    /// What the library's own lookup tells.
    Forward,
    /// What the system's lookup tells: the library's own is not known yet.
    System,
}

pub open spec fn proc_lookup_of(name: Option<Seq<char>>, loader_known: bool) -> ProcLookup {
    match name {
        None => ProcLookup::Nothing,
        Some(n) => match drawing_hook(n) {
            Some(hook) => ProcLookup::Replace { hook, keep: loader_known },
            None => if loader_known {
                ProcLookup::Forward
            } else {
                ProcLookup::System
            },
        },
    }
}

pub fn hooked_egl_get_proc_address(name: Option<&str>, loader_known: bool) -> (r: ProcLookup)
    ensures
        r == proc_lookup_of(
            match name {
                Some(n) => Some(n@),
                None => None,
            },
            loader_known,
        ),
{
    match name {
        None => ProcLookup::Nothing,
        Some(n) => match find_drawing_hook(n) {
            Some(hook) => ProcLookup::Replace { hook, keep: loader_known },
            None => {
                if loader_known {
                    ProcLookup::Forward
                } else {
                    ProcLookup::System
                }
            },
        },
    }
}

/// Both ways to look up a drawing function give the same replacement.
pub proof fn law_lookups_agree(name: Seq<char>, platform: Platform, loader_known: bool)
    ensures
        proc_lookup_of(Some(name), loader_known) matches ProcLookup::Replace { hook, keep } ==> {
            &&& lookup_of(Some(name), platform) matches Lookup::Replace { hook: h, .. }
            &&& h == hook
        },
{
}

/// The flag that lets a library prefer its own functions to the replacements.
pub const RTLD_DEEPBIND: i32 = 8;

/// The flags for opening a library, without the one that would hide the
/// replacements from it.
pub fn open_flags(flags: i32) -> (r: i32)
    ensures
        r == flags & !RTLD_DEEPBIND,
{
    flags & !RTLD_DEEPBIND
}

/// The flag is gone, all others stay, and there is no more to take away.
pub proof fn law_open_flags(flags: i32)
    ensures
        (flags & !RTLD_DEEPBIND) & RTLD_DEEPBIND == 0,
        (flags & !RTLD_DEEPBIND) | (flags & RTLD_DEEPBIND) == flags,
        (flags & !RTLD_DEEPBIND) & !RTLD_DEEPBIND == flags & !RTLD_DEEPBIND,
{
    assert((flags & !8i32) & 8i32 == 0) by (bit_vector);
    assert((flags & !8i32) | (flags & 8i32) == flags) by (bit_vector);
    assert((flags & !8i32) & !8i32 == flags & !8i32) by (bit_vector);
}

/// The name under which a function that can be replaced is looked up.
pub open spec fn symbol(hook: Hook) -> Seq<char> {
    match hook {
        Hook::GlViewport => "glViewport"@,
        Hook::GlScissor => "glScissor"@,
        Hook::GlBindFramebuffer => "glBindFramebuffer"@,
        Hook::GlBindFramebufferExt => "glBindFramebufferEXT"@,
        Hook::GlBindFramebufferArb => "glBindFramebufferARB"@,
        Hook::GlDrawBuffer => "glDrawBuffer"@,
        Hook::GlReadBuffer => "glReadBuffer"@,
        Hook::GlDrawBuffers => "glDrawBuffers"@,
        Hook::GlBlitFramebuffer => "glBlitFramebuffer"@,
        Hook::GlfwGetProcAddress => "glfwGetProcAddress"@,
        Hook::SetKeyCallback => "glfwSetKeyCallback"@,
        Hook::SetMouseButtonCallback => "glfwSetMouseButtonCallback"@,
        Hook::SetCursorPosCallback => "glfwSetCursorPosCallback"@,
        Hook::SetScrollCallback => "glfwSetScrollCallback"@,
        Hook::SetCharCallback => "glfwSetCharCallback"@,
        Hook::SetCharModsCallback => "glfwSetCharModsCallback"@,
        Hook::SetFramebufferSizeCallback => "glfwSetFramebufferSizeCallback"@,
        Hook::GetFramebufferSize => "glfwGetFramebufferSize"@,
        Hook::SetInputMode => "glfwSetInputMode"@,
        Hook::GetKey => "glfwGetKey"@,
        Hook::GetMouseButton => "glfwGetMouseButton"@,
        Hook::GetCursorPos => "glfwGetCursorPos"@,
        Hook::SetWindowTitle => "glfwSetWindowTitle"@,
        Hook::EglGetProcAddress => "eglGetProcAddress"@,
        Hook::EglSwapBuffers => "eglSwapBuffers"@,
        Hook::GlxGetProcAddress => "glXGetProcAddressARB"@,
        Hook::GlxSwapBuffers => "glXSwapBuffers"@,
        Hook::CglFlushDrawable => "CGLFlushDrawable"@,
        Hook::GlfwSwapBuffers => "glfwSwapBuffers"@,
    }
}

/// A function that exists on a platform.
pub open spec fn exists_on(hook: Hook, platform: Platform) -> bool {
    match hook {
        Hook::EglGetProcAddress => platform is Linux,
        Hook::EglSwapBuffers => platform is Linux,
        Hook::GlxGetProcAddress => platform is Linux,
        Hook::GlxSwapBuffers => platform is Linux,
        Hook::CglFlushDrawable => platform is MacOs,
        Hook::GlfwSwapBuffers => platform is MacOs,
        _ => true,
    }
}

/// Each function of the platform is replaced when it is looked up by its name, and
/// only by its own replacement; whatever has no replacement is passed on, and so
/// is a lookup without a name.
pub proof fn law_functions_are_replaced(hook: Hook, name: Seq<char>, platform: Platform)
    ensures
        exists_on(hook, platform) ==> (lookup_of(Some(symbol(hook)), platform) matches
            Lookup::Replace { hook: h, source, loader } && symbol(h) == symbol(hook)),
        lookup_of(Some(name), platform) matches Lookup::Replace { hook: h, source, loader } ==> name
            == symbol(h) && exists_on(h, platform),
        (forall|h: Hook| name != #[trigger] symbol(h)) ==> lookup_of(Some(name), platform)
            is PassThrough,
        lookup_of(None, platform) is PassThrough,
{
    if let Lookup::Replace { hook: h, source, loader } = lookup_of(Some(name), platform) {
        assert(name == symbol(h));
    }
}

/// The drawing functions are also replaced where a library looks them up by its
/// own lookup; the others are forwarded to that lookup, or to the system's while
/// it is not known.
pub proof fn law_libraries_get_the_replacements(hook: Hook, name: Seq<char>, loader_known: bool)
    ensures
        hook is GlViewport || hook is GlScissor || hook is GlBindFramebuffer
            || hook is GlBindFramebufferExt || hook is GlBindFramebufferArb || hook is GlDrawBuffer
            || hook is GlReadBuffer || hook is GlDrawBuffers ==> (proc_lookup_of(
            Some(symbol(hook)),
            loader_known,
        ) matches ProcLookup::Replace { hook: h, keep } && symbol(h) == symbol(hook) && keep
            == loader_known),
        proc_lookup_of(Some(name), loader_known) matches ProcLookup::Replace { hook: h, keep }
            ==> name == symbol(h),
        (forall|h: Hook| name != #[trigger] symbol(h)) ==> proc_lookup_of(Some(name), true)
            is Forward && proc_lookup_of(Some(name), false) is System,
        proc_lookup_of(None, loader_known) is Nothing,
{
    if let ProcLookup::Replace { hook: h, keep } = proc_lookup_of(Some(name), true) {
        assert(name == symbol(h));
    }
    if let ProcLookup::Replace { hook: h, keep } = proc_lookup_of(Some(name), false) {
        assert(name == symbol(h));
    }
}

/// The real functions come from where the game looks, but for the lookup of GLX,
/// which comes from the next library; with a swap of EGL or GLX the lookup of the
/// same kind is kept, and each of these from where it is found.
pub proof fn law_real_functions(name: Seq<char>, platform: Platform)
    ensures
        lookup_of(Some(name), platform) matches Lookup::Replace { hook, source, loader } ==> {
            &&& source is Next <==> hook is GlxGetProcAddress
            &&& loader == Some(ProcLoader::Egl) <==> hook is EglSwapBuffers
            &&& loader == Some(ProcLoader::Glx) <==> hook is GlxSwapBuffers
        },
        loader_source(ProcLoader::Egl) is Handle,
        loader_source(ProcLoader::Glx) is Next,
{
}

} // verus!
