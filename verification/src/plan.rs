//! What a provisioning run does, as its options say.
use crate::text::joined;
use vstd::prelude::*;

verus! {

/// The options of a provisioning run that say where things come from and go to.
#[derive(Debug)]
pub struct Options {
    /// Serial port of the device
    pub port: Option<String>,
    /// Output file for the factory data
    pub output: Option<String>,
    /// Output file for the HMAC key
    pub hmac_key_output: Option<String>,
    /// Read the existing HMAC key from the eFuse instead of generating a new one
    pub read_efuse_key: bool,
    /// Flash the factory data to the device
    pub flash: bool,
    /// Burn the HMAC key to the eFuse
    pub burn_efuse: bool,
}

/// Where the HMAC key comes from.
#[derive(Debug, Clone, Copy, PartialEq, Eq, Structural)]
pub enum KeySource {
    /// The eFuse of the device
    Efuse,
    /// Chance
    Generated,
}

/// Reading the key from the eFuse needs a port.
#[derive(Debug, Clone, Copy, PartialEq, Eq, Structural)]
pub struct PortRequired;

impl PortRequired {
    /// What the user is told.
    pub fn message(&self) -> (text: String)
        ensures
            text@ == "--port required when reading from eFuse"@,
    {
        "--port required when reading from eFuse".to_owned()
    }
}

/// Where data goes to.
#[derive(Debug)]
pub enum Destination {
    /// A file with this name in the folder of the device
    Folder(String),
    /// The file with this path
    File(String),
    /// Standard output
    Stdout,
}

/// One thing that a run does with the image and the HMAC key, once it has both.
#[derive(Debug)]
pub enum Action {
    /// Save the image.
    SaveImage(Destination),
    /// Save the HMAC key.
    SaveKey(Destination),
    /// Flash the image with this tool call, the image being in the file.
    Flash(ToolCall),
    /// Say that flashing needs a port.
    FlashNeedsPort,
    /// Burn the HMAC key with this tool call, the key being in the file.
    Burn(ToolCall),
    /// Say that burning needs a port.
    BurnNeedsPort,
}

/// A call of a command line tool, with the file that it reads.
#[derive(Debug)]
pub struct ToolCall {
    pub program: String,
    pub args: Vec<String>,
    /// The temporary file that the tool reads, if it reads one
    pub file: Option<String>,
}

/// What [`ToolCall`] holds.
#[verifier::ext_equal]
pub struct ToolCallView {
    pub program: Seq<char>,
    pub args: Seq<Seq<char>>,
    pub file: Option<Seq<char>>,
}

/// What strings hold.
pub open spec fn texts(strings: Seq<String>) -> Seq<Seq<char>> {
    Seq::new(strings.len(), |i: int| strings[i]@)
}

/// What a string holds, if there is one.
pub open spec fn text_of(string: Option<String>) -> Option<Seq<char>> {
    match string {
        Some(s) => Some(s@),
        None => None,
    }
}

impl View for ToolCall {
    type V = ToolCallView;

    open spec fn view(&self) -> ToolCallView {
        ToolCallView {
            program: self.program@,
            args: texts(self.args@),
            file: text_of(self.file),
        }
    }
}

/// What [`Destination`] holds.
pub enum DestinationView {
    Folder(Seq<char>),
    File(Seq<char>),
    Stdout,
}

impl View for Destination {
    type V = DestinationView;

    open spec fn view(&self) -> DestinationView {
        match self {
            Destination::Folder(name) => DestinationView::Folder(name@),
            Destination::File(path) => DestinationView::File(path@),
            Destination::Stdout => DestinationView::Stdout,
        }
    }
}

/// What [`Action`] holds.
pub enum ActionView {
    SaveImage(DestinationView),
    SaveKey(DestinationView),
    Flash(ToolCallView),
    FlashNeedsPort,
    Burn(ToolCallView),
    BurnNeedsPort,
}

impl View for Action {
    type V = ActionView;

    open spec fn view(&self) -> ActionView {
        match self {
            Action::SaveImage(to) => ActionView::SaveImage(to@),
            Action::SaveKey(to) => ActionView::SaveKey(to@),
            Action::Flash(call) => ActionView::Flash(call@),
            Action::FlashNeedsPort => ActionView::FlashNeedsPort,
            Action::Burn(call) => ActionView::Burn(call@),
            Action::BurnNeedsPort => ActionView::BurnNeedsPort,
        }
    }
}

/// Says where the HMAC key comes from.
pub fn key_source(options: &Options) -> (res: Result<KeySource, PortRequired>)
    ensures
        match res {
            Ok(KeySource::Efuse) => options.read_efuse_key && options.port is Some,
            Ok(KeySource::Generated) => !options.read_efuse_key,
            Err(PortRequired) => options.read_efuse_key && options.port is None,
        },
{
    if options.read_efuse_key {
        if options.port.is_some() {
            Ok(KeySource::Efuse)
        } else {
            Err(PortRequired)
        }
    } else {
        Ok(KeySource::Generated)
    }
}

/// The name of the folder of a device with this address.
pub fn folder_name(mac: &str) -> (name: String)
    ensures
        name@ == "esp32c3-"@ + mac@,
{
    joined("esp32c3-", mac)
}

/// A copy of a string.
fn copy(text: &String) -> (copied: String)
    ensures
        copied@ == text@,
{
    text.as_str().to_owned()
}

/// Where the image goes to: the folder of the device if there is a port, else the output file
/// if there is one, else standard output.
pub open spec fn image_destination(options: Options) -> DestinationView {
    if options.port is Some {
        DestinationView::Folder("ds_data.bin"@)
    } else {
        match options.output {
            Some(path) => DestinationView::File(path@),
            None => DestinationView::Stdout,
        }
    }
}

/// Where the HMAC key goes to: the folder of the device if there is a port, else the output
/// file if there is one, else nowhere.
pub open spec fn key_destination(options: Options) -> Option<DestinationView> {
    if options.port is Some {
        Some(DestinationView::Folder("ds_hmac_key.bin"@))
    } else {
        match options.hmac_key_output {
            Some(path) => Some(DestinationView::File(path@)),
            None => None,
        }
    }
}

/// The call that flashes the image in `/tmp/esp_ds_data.bin` to the secure certificate
/// partition.
pub open spec fn flash_call_of(port: Seq<char>) -> ToolCallView {
    ToolCallView {
        program: "esptool"@,
        args: seq![
            "--chip"@,
            "esp32c3"@,
            "--port"@,
            port,
            "write_flash"@,
            "0xD000"@,
            "/tmp/esp_ds_data.bin"@,
        ],
        file: Some("/tmp/esp_ds_data.bin"@),
    }
}

/// The call that burns the HMAC key in `/tmp/esp_ds_hmac_key.bin` to the eFuse.
pub open spec fn burn_call_of(port: Seq<char>) -> ToolCallView {
    ToolCallView {
        program: "espefuse"@,
        args: seq![
            "--port"@,
            port,
            "burn_key"@,
            "BLOCK_KEY2"@,
            "/tmp/esp_ds_hmac_key.bin"@,
            "HMAC_DOWN_DIGITAL_SIGNATURE"@,
            "--no-read-protect"@,
        ],
        file: Some("/tmp/esp_ds_hmac_key.bin"@),
    }
}

/// The call that dumps the eFuses.
pub open spec fn dump_call_of(port: Seq<char>) -> ToolCallView {
    ToolCallView { program: "espefuse"@, args: seq!["--port"@, port, "dump"@], file: None }
}

/// The call that reports the address of the device.
pub open spec fn mac_call_of(port: Seq<char>) -> ToolCallView {
    ToolCallView { program: "esptool"@, args: seq!["--port"@, port, "read-mac"@], file: None }
}

/// Appends an argument.
fn push_arg(args: &mut Vec<String>, arg: &str)
    ensures
        texts(final(args)@) == texts(old(args)@).push(arg@),
{
    let ghost before = texts(args@);
    args.push(arg.to_owned());
    assert(texts(args@) =~= before.push(arg@));
}

/// Makes the call that flashes the image.
pub fn flash_call(port: &str) -> (call: ToolCall)
    ensures
        call@ == flash_call_of(port@),
{
    let mut args: Vec<String> = Vec::new();
    push_arg(&mut args, "--chip");
    push_arg(&mut args, "esp32c3");
    push_arg(&mut args, "--port");
    push_arg(&mut args, port);
    push_arg(&mut args, "write_flash");
    push_arg(&mut args, "0xD000");
    push_arg(&mut args, "/tmp/esp_ds_data.bin");
    let call = ToolCall {
        program: "esptool".to_owned(),
        args,
        file: Some("/tmp/esp_ds_data.bin".to_owned()),
    };
    assert(call@ =~= flash_call_of(port@));
    call
}

/// Makes the call that burns the HMAC key.
pub fn burn_call(port: &str) -> (call: ToolCall)
    ensures
        call@ == burn_call_of(port@),
{
    let mut args: Vec<String> = Vec::new();
    push_arg(&mut args, "--port");
    push_arg(&mut args, port);
    push_arg(&mut args, "burn_key");
    push_arg(&mut args, "BLOCK_KEY2");
    push_arg(&mut args, "/tmp/esp_ds_hmac_key.bin");
    push_arg(&mut args, "HMAC_DOWN_DIGITAL_SIGNATURE");
    push_arg(&mut args, "--no-read-protect");
    let call = ToolCall {
        program: "espefuse".to_owned(),
        args,
        file: Some("/tmp/esp_ds_hmac_key.bin".to_owned()),
    };
    assert(call@ =~= burn_call_of(port@));
    call
}

/// Makes the call that dumps the eFuses.
pub fn dump_call(port: &str) -> (call: ToolCall)
    ensures
        call@ == dump_call_of(port@),
{
    let mut args: Vec<String> = Vec::new();
    push_arg(&mut args, "--port");
    push_arg(&mut args, port);
    push_arg(&mut args, "dump");
    let call = ToolCall { program: "espefuse".to_owned(), args, file: None };
    assert(call@ =~= dump_call_of(port@));
    call
}

/// Makes the call that reports the address of the device.
pub fn mac_call(port: &str) -> (call: ToolCall)
    ensures
        call@ == mac_call_of(port@),
{
    let mut args: Vec<String> = Vec::new();
    push_arg(&mut args, "--port");
    push_arg(&mut args, port);
    push_arg(&mut args, "read-mac");
    let call = ToolCall { program: "esptool".to_owned(), args, file: None };
    assert(call@ =~= mac_call_of(port@));
    call
}

/// What a run does with the image and the HMAC key, in order: it saves the image, saves the key
/// if it is asked for or there is a port, and flashes and burns if it is told to.
pub open spec fn deliveries_of(options: Options) -> Seq<ActionView> {
    let save_key = match key_destination(options) {
        Some(to) => seq![ActionView::SaveKey(to)],
        None => seq![],
    };
    let flash = match options.port {
        _ if !options.flash => seq![],
        Some(port) => seq![ActionView::Flash(flash_call_of(port@))],
        None => seq![ActionView::FlashNeedsPort],
    };
    let burn = match options.port {
        _ if !options.burn_efuse => seq![],
        Some(port) => seq![ActionView::Burn(burn_call_of(port@))],
        None => seq![ActionView::BurnNeedsPort],
    };
    seq![ActionView::SaveImage(image_destination(options))] + save_key + flash + burn
}

/// What actions hold.
pub open spec fn action_views(actions: Seq<Action>) -> Seq<ActionView> {
    Seq::new(actions.len(), |i: int| actions[i]@)
}

/// Says what a run does with the image and the HMAC key.
pub fn deliveries(options: &Options) -> (actions: Vec<Action>)
    ensures
        action_views(actions@) == deliveries_of(*options),
{
    let mut actions: Vec<Action> = Vec::new();
    match &options.port {
        Some(_) => {
            actions.push(Action::SaveImage(Destination::Folder("ds_data.bin".to_owned())));
            actions.push(Action::SaveKey(Destination::Folder("ds_hmac_key.bin".to_owned())));
        },
        None => {
            match &options.output {
                Some(path) => actions.push(Action::SaveImage(Destination::File(copy(path)))),
                None => actions.push(Action::SaveImage(Destination::Stdout)),
            }
            match &options.hmac_key_output {
                Some(path) => actions.push(Action::SaveKey(Destination::File(copy(path)))),
                None => {},
            }
        },
    }
    if options.flash {
        match &options.port {
            Some(port) => actions.push(Action::Flash(flash_call(port.as_str()))),
            None => actions.push(Action::FlashNeedsPort),
        }
    }
    if options.burn_efuse {
        match &options.port {
            Some(port) => actions.push(Action::Burn(burn_call(port.as_str()))),
            None => actions.push(Action::BurnNeedsPort),
        }
    }
    assert(action_views(actions@) =~= deliveries_of(*options));
    actions
}

} // verus!
