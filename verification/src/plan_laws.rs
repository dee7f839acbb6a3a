//! What a run does, for all options.
use crate::plan::action_views;
use crate::plan::burn_call_of;
use crate::plan::deliveries_of;
use crate::plan::dump_call_of;
use crate::plan::flash_call_of;
use crate::plan::image_destination;
use crate::plan::key_destination;
use crate::plan::mac_call_of;
use crate::plan::text_of;
use crate::plan::texts;
use crate::plan::Action;
use crate::plan::ActionView;
use crate::plan::Destination;
use crate::plan::DestinationView;
use crate::plan::Options;
use crate::plan::ToolCall;
use vstd::prelude::*;

verus! {

/// With a port, a run saves image and key in the folder of the device, and then flashes if and
/// only if it is told to flash, and burns if and only if it is told to burn, in this order and
/// once each, whatever its other options are.
pub proof fn law_run_with_port(options: Options, i: int)
    requires
        options.port is Some,
    ensures
        ({
            let acts = deliveries_of(options);
            let port = options.port->0@;
            let flashes: int = if options.flash {
                1
            } else {
                0
            };
            let burns: int = if options.burn_efuse {
                1
            } else {
                0
            };
            &&& acts.len() == 2 + flashes + burns
            &&& acts[0] == ActionView::SaveImage(DestinationView::Folder("ds_data.bin"@))
            &&& acts[1] == ActionView::SaveKey(DestinationView::Folder("ds_hmac_key.bin"@))
            &&& options.flash ==> acts[2] == ActionView::Flash(flash_call_of(port))
            &&& options.burn_efuse ==> acts[2 + flashes] == ActionView::Burn(burn_call_of(port))
            &&& 0 <= i < acts.len() ==> (acts[i] is Flash <==> options.flash && i == 2)
            &&& 0 <= i < acts.len() ==> (acts[i] is Burn <==> options.burn_efuse && i == 2
                + flashes)
        }),
{
    let acts = deliveries_of(options);
    assert(acts[0] == ActionView::SaveImage(image_destination(options)));
}

/// Without a port, a run saves the image to the output file or to standard output, saves the key
/// if and only if there is a file for it, and says that it needs a port if and only if it is told
/// to flash or to burn, once for each; it does nothing else.
pub proof fn law_run_without_port(options: Options)
    requires
        options.port is None,
    ensures
        ({
            let acts = deliveries_of(options);
            let keys: int = if options.hmac_key_output is Some {
                1
            } else {
                0
            };
            let flashes: int = if options.flash {
                1
            } else {
                0
            };
            let burns: int = if options.burn_efuse {
                1
            } else {
                0
            };
            &&& acts.len() == 1 + keys + flashes + burns
            &&& options.output is Some ==> acts[0] == ActionView::SaveImage(
                DestinationView::File(options.output->0@),
            )
            &&& options.output is None ==> acts[0] == ActionView::SaveImage(
                DestinationView::Stdout,
            )
            &&& options.hmac_key_output is Some ==> acts[1] == ActionView::SaveKey(
                DestinationView::File(options.hmac_key_output->0@),
            )
            &&& options.flash ==> acts[1 + keys] == ActionView::FlashNeedsPort
            &&& options.burn_efuse ==> acts[1 + keys + flashes] == ActionView::BurnNeedsPort
        }),
{
    let acts = deliveries_of(options);
    assert(acts[0] == ActionView::SaveImage(image_destination(options)));
}

/// Burning does not depend on flashing, nor flashing on burning: two runs that differ in the one
/// both do the other or neither does.
pub proof fn law_flash_and_burn_are_independent(options1: Options, options2: Options)
    requires
        options1.port is Some,
        options2.port is Some,
        options1.port->0@ == options2.port->0@,
    ensures
        ({
            let port = options1.port->0@;
            let acts1 = deliveries_of(options1);
            let acts2 = deliveries_of(options2);
            let burn = ActionView::Burn(burn_call_of(port));
            let flash = ActionView::Flash(flash_call_of(port));
            &&& acts1.contains(burn) <==> options1.burn_efuse
            &&& acts1.contains(flash) <==> options1.flash
            &&& options1.burn_efuse == options2.burn_efuse ==> acts1.contains(burn)
                == acts2.contains(burn)
            &&& options1.flash == options2.flash ==> acts1.contains(flash) == acts2.contains(flash)
        }),
{
    lemma_contains(options1);
    lemma_contains(options2);
}

proof fn lemma_contains(options: Options)
    requires
        options.port is Some,
    ensures
        deliveries_of(options).contains(ActionView::Burn(burn_call_of(options.port->0@)))
            <==> options.burn_efuse,
        deliveries_of(options).contains(ActionView::Flash(flash_call_of(options.port->0@)))
            <==> options.flash,
{
    let acts = deliveries_of(options);
    let burn = ActionView::Burn(burn_call_of(options.port->0@));
    let flash = ActionView::Flash(flash_call_of(options.port->0@));
    law_run_with_port(options, 0);
    if acts.contains(burn) {
        let i = choose|i: int| 0 <= i < acts.len() && acts[i] == burn;
        law_run_with_port(options, i);
    }
    if acts.contains(flash) {
        let i = choose|i: int| 0 <= i < acts.len() && acts[i] == flash;
        law_run_with_port(options, i);
    }
}

/// Every tool is called with the port that was given, in its place; the tools that write read
/// what they write from the temporary file that they are called with.
pub proof fn law_tool_calls(port: Seq<char>)
    ensures
        ({
            let flash = flash_call_of(port);
            &&& flash.program == "esptool"@
            &&& flash.args.len() == 7
            &&& flash.args[0] == "--chip"@
            &&& flash.args[1] == "esp32c3"@
            &&& flash.args[2] == "--port"@
            &&& flash.args[3] == port
            &&& flash.args[4] == "write_flash"@
            &&& flash.args[5] == "0xD000"@
            &&& flash.args[6] == "/tmp/esp_ds_data.bin"@
            &&& flash.file == Some(flash.args[6])
        }),
        ({
            let burn = burn_call_of(port);
            &&& burn.program == "espefuse"@
            &&& burn.args.len() == 7
            &&& burn.args[0] == "--port"@
            &&& burn.args[1] == port
            &&& burn.args[2] == "burn_key"@
            &&& burn.args[3] == "BLOCK_KEY2"@
            &&& burn.args[4] == "/tmp/esp_ds_hmac_key.bin"@
            &&& burn.args[5] == "HMAC_DOWN_DIGITAL_SIGNATURE"@
            &&& burn.args[6] == "--no-read-protect"@
            &&& burn.file == Some(burn.args[4])
        }),
        ({
            let dump = dump_call_of(port);
            &&& dump.program == "espefuse"@
            &&& dump.args.len() == 3
            &&& dump.args[0] == "--port"@
            &&& dump.args[1] == port
            &&& dump.args[2] == "dump"@
            &&& dump.file is None
        }),
        ({
            let mac = mac_call_of(port);
            &&& mac.program == "esptool"@
            &&& mac.args.len() == 3
            &&& mac.args[0] == "--port"@
            &&& mac.args[1] == port
            &&& mac.args[2] == "read-mac"@
            &&& mac.file is None
        }),
{
}

/// Calls, destinations and actions are seen as what they hold, and lists of them one by one.
pub proof fn law_plan_views(
    call: ToolCall,
    to: Destination,
    text: String,
    actions: Seq<Action>,
    i: int,
)
    ensures
        call@.program == call.program@,
        call@.args.len() == call.args@.len(),
        0 <= i < call.args@.len() ==> call@.args[i] == call.args@[i]@,
        call.file is Some ==> call@.file == Some(call.file->0@),
        call.file is None ==> call@.file is None,
        texts(call.args@) == call@.args,
        text_of(Some(text)) == Some(text@),
        text_of(None) is None,
        Destination::Folder(text)@ == DestinationView::Folder(text@),
        Destination::File(text)@ == DestinationView::File(text@),
        Destination::Stdout@ == DestinationView::Stdout,
        Action::SaveImage(to)@ == ActionView::SaveImage(to@),
        Action::SaveKey(to)@ == ActionView::SaveKey(to@),
        Action::Flash(call)@ == ActionView::Flash(call@),
        Action::FlashNeedsPort@ == ActionView::FlashNeedsPort,
        Action::Burn(call)@ == ActionView::Burn(call@),
        Action::BurnNeedsPort@ == ActionView::BurnNeedsPort,
        action_views(actions).len() == actions.len(),
        0 <= i < actions.len() ==> action_views(actions)[i] == actions[i]@,
{
}

/// A key has a destination if and only if there is a port or a file for it.
pub proof fn law_key_destination(options: Options)
    ensures
        key_destination(options) is Some <==> options.port is Some || options.hmac_key_output
            is Some,
{
}

} // verus!
